//! What an agent did, in short lines.
use vstd::prelude::*;
use vstd::string::*;

use crate::outside::{json_field, json_member, to_uppercase, uppercase, Field, JsonField};
use crate::split::{parts_at, split_at_char};
use crate::text::{
    decimal, decimal_usize, join, joined, lines, lines_of, nested, owned, push_chars, slice_of,
    slice_text, text_eq, text_of, texts, to_chars,
};

verus! {

/// One item of an agent's history.
#[derive(Debug, PartialEq, Eq)]
pub enum HistoryItem {
    FunctionCall { name: String, arguments: String, call_id: String },
    CustomToolCall { name: String, input: String },
    /// The arguments are JSON.
    ToolSearchCall { execution: String, arguments: String },
    LocalShellCall { command: Vec<String> },
    WebSearchCall,
    ImageGenerationCall,
    /// The output of a call, if it can be shown as text.
    ToolOutput { call_id: String, text: Option<String> },
    Other,
}

/// How often a tool was used.
#[derive(Debug, PartialEq, Eq)]
pub struct ToolCount {
    pub name: String,
    pub count: usize,
}

/// What an agent did: how often it used which tool, and a line for each use.
#[derive(Debug, PartialEq, Eq)]
pub struct CollabAgentToolSummary {
    pub tools: Vec<ToolCount>,
    pub output: Vec<String>,
}

/// How many characters of a value are shown.
pub const MAX_SUMMARY_CHARS: usize = 80;

/// A value, cut where it is long.
pub open spec fn cut_short(value: Seq<char>) -> Seq<char> {
    if value.len() > MAX_SUMMARY_CHARS {
        value.take(MAX_SUMMARY_CHARS as int) + "..."@
    } else {
        value
    }
}

/// Cuts a long value.
pub fn truncate_summary_value(value: &str) -> (r: String)
    ensures
        r@ == cut_short(value@),
{
    let chars = to_chars(value);
    if chars.len() > MAX_SUMMARY_CHARS {
        let mut out = slice_text(chars.as_slice(), 0, MAX_SUMMARY_CHARS);
        assert(out@ =~= value@.take(MAX_SUMMARY_CHARS as int));
        out.append("...");
        out
    } else {
        owned(value)
    }
}

/// A label, with a detail behind it if there is one.
pub open spec fn labelled(label: Seq<char>, detail: Option<Seq<char>>) -> Seq<char> {
    match detail {
        Some(text) => label + " "@ + text,
        None => label,
    }
}

/// A label, with a detail behind it unless it is empty.
pub open spec fn labelled_unless_empty(label: Seq<char>, detail: Option<Seq<char>>) -> Seq<char> {
    match detail {
        Some(text) => if text.len() == 0 {
            label
        } else {
            label + " "@ + text
        },
        None => label,
    }
}

/// Puts a detail behind a label.
pub fn label_line(label: &str, detail: Option<&str>) -> (r: String)
    ensures
        r@ == labelled(label@, slice_of(detail)),
{
    let mut out = owned(label);
    if let Some(text) = detail {
        out.append(" ");
        out.append(text);
    }
    out
}

/// Puts a detail behind a label unless it is empty.
pub fn label_line_unless_empty(label: &str, detail: Option<&str>) -> (r: String)
    ensures
        r@ == labelled_unless_empty(label@, slice_of(detail)),
{
    match detail {
        Some(text) => if text.is_empty() {
            owned(label)
        } else {
            label_line(label, Some(text))
        },
        None => owned(label),
    }
}

/// The parts of a name as words: each with another text for its first character. Parts without
/// characters are left out.
pub open spec fn words_with(initials: Seq<Seq<char>>, parts: Seq<Seq<char>>) -> Seq<Seq<char>>
    decreases parts.len(),
{
    if parts.len() == 0 {
        Seq::empty()
    } else {
        let before = words_with(initials, parts.drop_last());
        if parts.last().len() == 0 {
            before
        } else {
            before.push(initials[parts.len() - 1] + parts.last().skip(1))
        }
    }
}

/// The first characters of the parts of a name in uppercase; nothing where there is none.
pub open spec fn initials_of(parts: Seq<Seq<char>>) -> Seq<Seq<char>> {
    Seq::new(
        parts.len(),
        |i: int|
            if parts[i].len() == 0 {
                Seq::empty()
            } else {
                uppercase(parts[i][0])
            },
    )
}

/// A tool's name as a title.
pub open spec fn title(name: Seq<char>) -> Seq<char> {
    let parts = parts_at(name, '_');
    joined(words_with(initials_of(parts), parts), " "@)
}

fn initials(parts: &[Vec<char>]) -> (r: Vec<String>)
    ensures
        texts(r@) == initials_of(nested(parts@)),
{
    let ghost all = nested(parts@);
    let mut out: Vec<String> = Vec::new();
    let mut i: usize = 0;
    assert(texts(out@) =~= initials_of(all).take(0));
    while i < parts.len()
        invariant
            i <= parts@.len(),
            all == nested(parts@),
            texts(out@) == initials_of(all).take(i as int),
        decreases parts@.len() - i,
    {
        let ghost before = out@;
        let initial = if parts[i].len() == 0 {
            proof {
                reveal_strlit("");
            }
            owned("")
        } else {
            to_uppercase(parts[i][0])
        };
        assert(all[i as int] == parts@[i as int]@);
        assert(initial@ =~= initials_of(all)[i as int]);
        out.push(initial);
        assert(texts(out@) =~= texts(before).push(initial@));
        assert(initials_of(all).take(i + 1) =~= initials_of(all).take(i as int).push(initial@));
        i += 1;
    }
    assert(initials_of(all).take(all.len() as int) =~= initials_of(all));
    out
}

/// Makes a title of the parts of a name, with another text for the first character of each.
pub fn title_from(initials: &[String], parts: &[Vec<char>]) -> (r: String)
    requires
        initials@.len() == parts@.len(),
    ensures
        r@ == joined(words_with(texts(initials@), nested(parts@)), " "@),
{
    let ghost all = nested(parts@);
    let ghost firsts = texts(initials@);
    let mut words: Vec<String> = Vec::new();
    let mut i: usize = 0;
    assert(all.take(0) =~= Seq::<Seq<char>>::empty());
    assert(texts(words@) =~= Seq::<Seq<char>>::empty());
    while i < parts.len()
        invariant
            i <= parts@.len() == initials@.len(),
            all == nested(parts@),
            firsts == texts(initials@),
            texts(words@) == words_with(firsts, all.take(i as int)),
        decreases parts@.len() - i,
    {
        proof {
            assert(all.take(i + 1).drop_last() =~= all.take(i as int));
            assert(all.take(i + 1).last() == parts@[i as int]@);
        }
        let part = &parts[i];
        if part.len() > 0 {
            let ghost before = words@;
            let mut word = owned(initials[i].as_str());
            push_chars(&mut word, part.as_slice(), 1, part.len());
            assert(part@.subrange(1, part@.len() as int) =~= part@.skip(1));
            words.push(word);
            assert(texts(words@) =~= texts(before).push(word@));
        }
        i += 1;
    }
    assert(all.take(all.len() as int) =~= all);
    join(words.as_slice(), " ")
}

/// Makes a title of a tool's name.
pub fn format_tool_name(name: &str) -> (r: String)
    ensures
        r@ == title(name@),
{
    let parts = split_at_char(name, '_');
    let firsts = initials(parts.as_slice());
    assert(texts(firsts@).len() == firsts@.len());
    title_from(firsts.as_slice(), parts.as_slice())
}

/// The short name of a tool.
pub open spec fn tool_label(name: Seq<char>) -> Seq<char> {
    if name == "read_file"@ {
        "Read"@
    } else if name == "write"@ {
        "Write"@
    } else if name == "edit"@ {
        "Edit"@
    } else if name == "delete"@ {
        "Delete"@
    } else if name == "list_dir"@ {
        "List"@
    } else if name == "search_file"@ || name == "grep_file"@ {
        "Search"@
    } else if name == "glob_file"@ {
        "Glob"@
    } else if name == "execute"@ || name == "shell"@ {
        "Execute"@
    } else if name == "web_search"@ {
        "Web"@
    } else if name == "image_generation"@ {
        "Image"@
    } else if name == "view_image"@ {
        "View"@
    } else if name == "update_plan"@ {
        "Plan"@
    } else if name == "spawn_agent"@ {
        "Spawn"@
    } else if name == "send_input"@ {
        "Send"@
    } else if name == "resume_agent"@ {
        "Resume"@
    } else if name == "wait_agent"@ {
        "Wait"@
    } else if name == "close_agent"@ {
        "Close"@
    } else {
        title(name)
    }
}

/// The short name of a tool.
pub fn short_tool_label(name: &str) -> (r: String)
    ensures
        r@ == tool_label(name@),
{
    if text_eq(name, "read_file") {
        owned("Read")
    } else if text_eq(name, "write") {
        owned("Write")
    } else if text_eq(name, "edit") {
        owned("Edit")
    } else if text_eq(name, "delete") {
        owned("Delete")
    } else if text_eq(name, "list_dir") {
        owned("List")
    } else if text_eq(name, "search_file") || text_eq(name, "grep_file") {
        owned("Search")
    } else if text_eq(name, "glob_file") {
        owned("Glob")
    } else if text_eq(name, "execute") || text_eq(name, "shell") {
        owned("Execute")
    } else if text_eq(name, "web_search") {
        owned("Web")
    } else if text_eq(name, "image_generation") {
        owned("Image")
    } else if text_eq(name, "view_image") {
        owned("View")
    } else if text_eq(name, "update_plan") {
        owned("Plan")
    } else if text_eq(name, "spawn_agent") {
        owned("Spawn")
    } else if text_eq(name, "send_input") {
        owned("Send")
    } else if text_eq(name, "resume_agent") {
        owned("Resume")
    } else if text_eq(name, "wait_agent") {
        owned("Wait")
    } else if text_eq(name, "close_agent") {
        owned("Close")
    } else {
        format_tool_name(name)
    }
}

/// What is shown of a member: a text cut short, a number or a truth value as it is.
pub open spec fn shown_field(field: Option<Field>) -> Option<Seq<char>> {
    match field {
        Some(Field::Text(text)) => Some(cut_short(text)),
        Some(Field::Scalar(shown)) => Some(shown),
        _ => None,
    }
}

/// Shows a member: a text cut short, a number or a truth value as it is.
pub fn field_value(field: Option<JsonField>) -> (r: Option<String>)
    ensures
        text_of(r) == shown_field(
            match field {
                Some(held) => Some(held.model()),
                None => None,
            },
        ),
{
    match field {
        Some(JsonField::Text(text)) => Some(truncate_summary_value(text.as_str())),
        Some(JsonField::Scalar(shown)) => Some(shown),
        _ => None,
    }
}

/// What is shown of the argument `key`.
pub open spec fn argument_shown(arguments: Seq<char>, key: Seq<char>) -> Option<Seq<char>> {
    shown_field(json_member(arguments, key))
}

/// Shows the argument `key`.
pub fn argument_value(arguments: &str, key: &str) -> (r: Option<String>)
    ensures
        text_of(r) == argument_shown(arguments@, key@),
{
    field_value(json_field(arguments, key))
}

/// The argument `key`, if it is a text.
pub open spec fn argument_text(arguments: Seq<char>, key: Seq<char>) -> Option<Seq<char>> {
    match json_member(arguments, key) {
        Some(Field::Text(text)) => Some(text),
        _ => None,
    }
}

/// A member, if it is a text.
pub fn field_text(field: Option<JsonField>) -> (r: Option<String>)
    ensures
        match field {
            Some(JsonField::Text(text)) => r == Some(text),
            _ => r is None,
        },
{
    match field {
        Some(JsonField::Text(text)) => Some(text),
        _ => None,
    }
}

/// The argument `key`, if it is a text.
pub fn argument_string(arguments: &str, key: &str) -> (r: Option<String>)
    ensures
        text_of(r) == argument_text(arguments@, key@),
{
    field_text(json_field(arguments, key))
}

/// The first of two that is there.
pub open spec fn or_else(a: Option<Seq<char>>, b: Option<Seq<char>>) -> Option<Seq<char>> {
    match a {
        Some(_) => a,
        None => b,
    }
}

/// The argument that says most about a call.
pub open spec fn main_argument(arguments: Seq<char>) -> Option<Seq<char>> {
    or_else(
        argument_shown(arguments, "path"@),
        or_else(
            argument_shown(arguments, "dir_path"@),
            or_else(
                argument_shown(arguments, "cmd"@),
                or_else(
                    argument_shown(arguments, "pattern"@),
                    or_else(
                        argument_shown(arguments, "query"@),
                        or_else(
                            argument_shown(arguments, "command"@),
                            or_else(
                                argument_shown(arguments, "message"@),
                                argument_shown(arguments, "task_name"@),
                            ),
                        ),
                    ),
                ),
            ),
        ),
    )
}

/// The argument that says most about a call.
pub fn first_summary_argument(arguments: &str) -> (r: Option<String>)
    ensures
        text_of(r) == main_argument(arguments@),
{
    if let Some(value) = argument_value(arguments, "path") {
        return Some(value);
    }
    if let Some(value) = argument_value(arguments, "dir_path") {
        return Some(value);
    }
    if let Some(value) = argument_value(arguments, "cmd") {
        return Some(value);
    }
    if let Some(value) = argument_value(arguments, "pattern") {
        return Some(value);
    }
    if let Some(value) = argument_value(arguments, "query") {
        return Some(value);
    }
    if let Some(value) = argument_value(arguments, "command") {
        return Some(value);
    }
    if let Some(value) = argument_value(arguments, "message") {
        return Some(value);
    }
    argument_value(arguments, "task_name")
}

fn as_slice(s: &Option<String>) -> (r: Option<&str>)
    ensures
        slice_of(r) == text_of(*s),
{
    match s {
        Some(text) => Some(text.as_str()),
        None => None,
    }
}

/// The line for a call of a tool that has no line of its own.
pub open spec fn generic_line(name: Seq<char>, arguments: Seq<char>) -> Seq<char> {
    labelled_unless_empty(tool_label(name), main_argument(arguments))
}

/// The line for a call of a tool that has no line of its own, with JSON arguments.
pub fn generic_function_call_summary_line(name: &str, arguments: &str) -> (r: String)
    ensures
        r@ == generic_line(name@, arguments@),
{
    let label = short_tool_label(name);
    let detail = first_summary_argument(arguments);
    label_line_unless_empty(label.as_str(), as_slice(&detail))
}

/// The line for a search for tools.
pub fn generic_json_tool_summary_line(name: &str, arguments: &str) -> (r: String)
    ensures
        r@ == generic_line(name@, arguments@),
{
    generic_function_call_summary_line(name, arguments)
}

/// The line for a call with a plain text.
pub open spec fn detail_line(name: Seq<char>, detail: Option<Seq<char>>) -> Seq<char> {
    labelled_unless_empty(
        tool_label(name),
        match detail {
            Some(text) => Some(cut_short(text)),
            None => None,
        },
    )
}

/// The line for a call with a plain text.
pub fn generic_tool_summary_line(name: &str, detail: Option<&str>) -> (r: String)
    ensures
        r@ == detail_line(name@, slice_of(detail)),
{
    let label = short_tool_label(name);
    match detail {
        Some(text) => {
            let shown = truncate_summary_value(text);
            label_line_unless_empty(label.as_str(), Some(shown.as_str()))
        },
        None => label_line_unless_empty(label.as_str(), None),
    }
}

/// The line for a command.
pub fn local_shell_summary_line(command: &[String]) -> (r: String)
    ensures
        r@ == detail_line("shell"@, Some(joined(texts(command@), " "@))),
{
    let line = join(command, " ");
    generic_tool_summary_line("shell", Some(line.as_str()))
}

/// Whether a line is an added one, a removed one, or neither.
pub open spec fn begins_with(line: Seq<char>, mark: char, count: int) -> bool {
    line.len() >= count && forall|i: int| 0 <= i < count ==> line[i] == mark
}

/// How many lines a diff adds.
pub open spec fn lines_added(diff: Seq<Seq<char>>) -> nat
    decreases diff.len(),
{
    if diff.len() == 0 {
        0
    } else {
        lines_added(diff.drop_last()) + if begins_with(diff.last(), '+', 1) && !begins_with(
            diff.last(),
            '+',
            3,
        ) {
            1nat
        } else {
            0
        }
    }
}

/// How many lines a diff removes.
pub open spec fn lines_removed(diff: Seq<Seq<char>>) -> nat
    decreases diff.len(),
{
    if diff.len() == 0 {
        0
    } else {
        lines_removed(diff.drop_last()) + if begins_with(diff.last(), '-', 1) && !begins_with(
            diff.last(),
            '-',
            3,
        ) {
            1nat
        } else {
            0
        }
    }
}

fn marked(chars: &[char], mark: char, count: usize) -> (r: bool)
    ensures
        r == begins_with(chars@, mark, count as int),
{
    if chars.len() < count {
        return false;
    }
    let mut i: usize = 0;
    while i < count
        invariant
            i <= count <= chars@.len(),
            forall|j: int| 0 <= j < i ==> chars@[j] == mark,
        decreases count - i,
    {
        if chars[i] != mark {
            return false;
        }
        i += 1;
    }
    true
}

/// How many lines a diff adds and removes; the lines that name the files do not count.
pub fn diff_line_counts(diff: &str) -> (r: (usize, usize))
    ensures
        r.0 == lines_added(lines_of(diff@)),
        r.1 == lines_removed(lines_of(diff@)),
{
    let all = lines(diff);
    let ghost model = lines_of(diff@);
    let mut added: usize = 0;
    let mut removed: usize = 0;
    let mut i: usize = 0;
    assert(model.take(0) =~= Seq::<Seq<char>>::empty());
    while i < all.len()
        invariant
            i <= all@.len(),
            model == texts(all@),
            added <= i,
            removed <= i,
            added == lines_added(model.take(i as int)),
            removed == lines_removed(model.take(i as int)),
        decreases all@.len() - i,
    {
        proof {
            assert(model.take(i + 1).drop_last() =~= model.take(i as int));
            assert(model.take(i + 1).last() == all@[i as int]@);
        }
        let chars = to_chars(all[i].as_str());
        let line = chars.as_slice();
        let plus = marked(line, '+', 1) && !marked(line, '+', 3);
        let minus = marked(line, '-', 1) && !marked(line, '-', 3);
        if plus {
            added += 1;
        }
        if minus {
            removed += 1;
        }
        i += 1;
    }
    assert(model.take(model.len() as int) =~= model);
    (added, removed)
}

/// The line for a change of a file.
pub open spec fn change_line(
    label: Seq<char>,
    path: Option<Seq<char>>,
    added: nat,
    removed: nat,
) -> Seq<char> {
    label + " "@ + (match path {
        Some(text) => text,
        None => "file"@,
    }) + "(+"@ + decimal(added) + " -"@ + decimal(removed) + ")"@
}

/// The line for a change of a file: its path, and the lines that were added and removed.
pub fn file_change_line(label: &str, path: Option<&str>, added: usize, removed: usize) -> (r: String)
    ensures
        r@ == change_line(label@, slice_of(path), added as nat, removed as nat),
{
    let mut out = owned(label);
    out.append(" ");
    match path {
        Some(text) => out.append(text),
        None => out.append("file"),
    }
    out.append("(+");
    out.append(decimal_usize(added).as_str());
    out.append(" -");
    out.append(decimal_usize(removed).as_str());
    out.append(")");
    out
}

/// The line for a function call.
pub open spec fn call_line(
    name: Seq<char>,
    arguments: Seq<char>,
    output: Option<Seq<char>>,
) -> Seq<char> {
    if name == "read_file"@ {
        labelled("Read"@, argument_text(arguments, "path"@))
    } else if name == "search_file"@ || name == "grep_file"@ {
        labelled(
            "Search"@,
            or_else(argument_text(arguments, "query"@), argument_text(arguments, "pattern"@)),
        )
    } else if name == "glob_file"@ {
        labelled("Glob"@, argument_text(arguments, "pattern"@))
    } else if name == "delete"@ {
        labelled("Delete"@, argument_text(arguments, "path"@))
    } else if name == "list_dir"@ {
        labelled("List"@, argument_text(arguments, "dir_path"@))
    } else if name == "execute"@ {
        labelled("Execute"@, argument_text(arguments, "cmd"@))
    } else if name == "edit"@ {
        change_line(
            "Edit"@,
            argument_text(arguments, "path"@),
            match output {
                Some(text) => lines_added(lines_of(text)),
                None => 0,
            },
            match output {
                Some(text) => lines_removed(lines_of(text)),
                None => 0,
            },
        )
    } else if name == "write"@ {
        change_line(
            "Write"@,
            argument_text(arguments, "path"@),
            match argument_text(arguments, "content"@) {
                Some(text) => lines_of(text).len(),
                None => 0,
            },
            0,
        )
    } else {
        generic_line(name, arguments)
    }
}

/// The line for a function call. `output` is what the call gave back, if that is known.
pub fn function_call_summary_line(name: &str, arguments: &str, output: Option<&str>) -> (r: String)
    ensures
        r@ == call_line(name@, arguments@, slice_of(output)),
{
    if text_eq(name, "read_file") {
        let path = argument_string(arguments, "path");
        label_line("Read", as_slice(&path))
    } else if text_eq(name, "search_file") || text_eq(name, "grep_file") {
        let wanted = match argument_string(arguments, "query") {
            Some(query) => Some(query),
            None => argument_string(arguments, "pattern"),
        };
        label_line("Search", as_slice(&wanted))
    } else if text_eq(name, "glob_file") {
        let pattern = argument_string(arguments, "pattern");
        label_line("Glob", as_slice(&pattern))
    } else if text_eq(name, "delete") {
        let path = argument_string(arguments, "path");
        label_line("Delete", as_slice(&path))
    } else if text_eq(name, "list_dir") {
        let path = argument_string(arguments, "dir_path");
        label_line("List", as_slice(&path))
    } else if text_eq(name, "execute") {
        let cmd = argument_string(arguments, "cmd");
        label_line("Execute", as_slice(&cmd))
    } else if text_eq(name, "edit") {
        let path = argument_string(arguments, "path");
        let (added, removed) = match output {
            Some(text) => diff_line_counts(text),
            None => (0, 0),
        };
        file_change_line("Edit", as_slice(&path), added, removed)
    } else if text_eq(name, "write") {
        let path = argument_string(arguments, "path");
        let added: usize = match argument_string(arguments, "content") {
            Some(content) => {
                let all = lines(content.as_str());
                assert(texts(all@).len() == all@.len());
                all.len()
            },
            None => 0,
        };
        file_change_line("Write", as_slice(&path), added, 0)
    } else {
        generic_function_call_summary_line(name, arguments)
    }
}

/// How often each tool was used, as plain values.
pub open spec fn counts(entries: Seq<ToolCount>) -> Seq<(Seq<char>, nat)> {
    Seq::new(entries.len(), |i: int| (entries[i].name@, entries[i].count as nat))
}

/// The place of a name in a list.
pub open spec fn place_of(list: Seq<(Seq<char>, nat)>, name: Seq<char>) -> Option<int>
    decreases list.len(),
{
    if list.len() == 0 {
        None
    } else {
        match place_of(list.drop_last(), name) {
            Some(at) => Some(at),
            None => if list.last().0 == name {
                Some(list.len() - 1)
            } else {
                None
            },
        }
    }
}

/// The list after one more use of a tool: one more where it is listed, else a new entry at the end.
pub open spec fn counted(list: Seq<(Seq<char>, nat)>, name: Seq<char>) -> Seq<(Seq<char>, nat)> {
    match place_of(list, name) {
        Some(at) => list.update(at, (list[at].0, list[at].1 + 1)),
        None => list.push((name, 1)),
    }
}

proof fn lemma_place_of(list: Seq<(Seq<char>, nat)>, name: Seq<char>)
    ensures
        match place_of(list, name) {
            Some(at) => 0 <= at < list.len() && list[at].0 == name && forall|i: int|
                0 <= i < at ==> (#[trigger] list[i]).0 != name,
            None => forall|i: int| 0 <= i < list.len() ==> (#[trigger] list[i]).0 != name,
        },
    decreases list.len(),
{
    if list.len() > 0 {
        lemma_place_of(list.drop_last(), name);
        let front = list.drop_last();
        assert forall|i: int| 0 <= i < front.len() implies front[i] == list[i] by {}
    }
}

proof fn lemma_place_unique(list: Seq<(Seq<char>, nat)>, name: Seq<char>, at: int)
    requires
        0 <= at < list.len(),
        list[at].0 == name,
        forall|i: int| 0 <= i < at ==> (#[trigger] list[i]).0 != name,
    ensures
        place_of(list, name) == Some(at),
{
    lemma_place_of(list, name);
    if let Some(got) = place_of(list, name) {
        if got < at {
            assert(list[got].0 != name);
        } else if at < got {
            assert(list[at].0 != name);
        }
    } else {
        assert(list[at].0 != name);
    }
}

/// Counts one more use of a tool.
pub fn increment_tool_count(entries: &mut Vec<ToolCount>, name: &str)
    requires
        place_of(counts(old(entries)@), name@) matches Some(at) ==> old(entries)@[at].count
            < usize::MAX,
    ensures
        counts(final(entries)@) == counted(counts(old(entries)@), name@),
{
    let ghost before = entries@;
    let mut i: usize = 0;
    while i < entries.len()
        invariant
            i <= entries@.len(),
            entries@ == before,
            before == old(entries)@,
            forall|j: int| 0 <= j < i ==> (#[trigger] before[j]).name@ != name@,
            place_of(counts(before), name@) matches Some(at) ==> before[at].count < usize::MAX,
        decreases entries@.len() - i,
    {
        if text_eq(entries[i].name.as_str(), name) {
            let count: usize = entries[i].count;
            proof {
                assert(counts(before)[i as int] == (name@, count as nat));
                assert forall|j: int| 0 <= j < i implies (#[trigger] counts(before)[j]).0
                    != name@ by {
                    assert(before[j].name@ != name@);
                }
                lemma_place_unique(counts(before), name@, i as int);
            }
            let entry = ToolCount { name: owned(name), count: count + 1 };
            entries.set(i, entry);
            assert(counts(entries@) =~= counted(counts(before), name@));
            return ;
        }
        i += 1;
    }
    proof {
        lemma_place_of(counts(before), name@);
        if let Some(at) = place_of(counts(before), name@) {
            assert(before[at].name@ != name@);
        }
    }
    entries.push(ToolCount { name: owned(name), count: 1 });
    assert(counts(entries@) =~= counted(counts(before), name@));
}

/// The tool that an item uses.
pub open spec fn tool_of(item: HistoryItem) -> Option<Seq<char>> {
    match item {
        HistoryItem::FunctionCall { name, .. } => Some(name@),
        HistoryItem::CustomToolCall { name, .. } => Some(name@),
        HistoryItem::ToolSearchCall { execution, .. } => Some(execution@),
        HistoryItem::LocalShellCall { .. } => Some("shell"@),
        HistoryItem::WebSearchCall => Some("web_search"@),
        HistoryItem::ImageGenerationCall => Some("image_generation"@),
        HistoryItem::ToolOutput { .. } => None,
        HistoryItem::Other => None,
    }
}

/// The output of a call: the last one under its id that can be shown.
pub open spec fn output_of(history: Seq<HistoryItem>, id: Seq<char>) -> Option<Seq<char>>
    decreases history.len(),
{
    if history.len() == 0 {
        None
    } else {
        match history.last() {
            HistoryItem::ToolOutput { call_id, text: Some(shown) } => if call_id@ == id {
                Some(shown@)
            } else {
                output_of(history.drop_last(), id)
            },
            _ => output_of(history.drop_last(), id),
        }
    }
}

/// The line for an item.
pub open spec fn item_line(history: Seq<HistoryItem>, item: HistoryItem) -> Seq<char> {
    match item {
        HistoryItem::FunctionCall { name, arguments, call_id } => call_line(
            name@,
            arguments@,
            output_of(history, call_id@),
        ),
        HistoryItem::CustomToolCall { name, input } => detail_line(name@, Some(input@)),
        HistoryItem::ToolSearchCall { execution, arguments } => generic_line(
            execution@,
            arguments@,
        ),
        HistoryItem::LocalShellCall { command } => detail_line(
            "shell"@,
            Some(joined(texts(command@), " "@)),
        ),
        HistoryItem::WebSearchCall => "Web Search"@,
        HistoryItem::ImageGenerationCall => "Image Generation"@,
        _ => ""@,
    }
}

/// How often the first `count` items use each tool.
pub open spec fn tools_used(history: Seq<HistoryItem>, count: nat) -> Seq<(Seq<char>, nat)>
    decreases count,
{
    if count == 0 {
        Seq::empty()
    } else {
        let before = tools_used(history, (count - 1) as nat);
        match tool_of(history[count - 1]) {
            Some(name) => counted(before, name),
            None => before,
        }
    }
}

/// The lines for the first `count` items.
pub open spec fn lines_for(history: Seq<HistoryItem>, count: nat) -> Seq<Seq<char>>
    decreases count,
{
    if count == 0 {
        Seq::empty()
    } else {
        let before = lines_for(history, (count - 1) as nat);
        match tool_of(history[count - 1]) {
            Some(_) => before.push(item_line(history, history[count - 1])),
            None => before,
        }
    }
}

/// The call and the text of an item that is the output of a call.
pub fn tool_call_output_text(item: &HistoryItem) -> (r: Option<(&str, &str)>)
    ensures
        match *item {
            HistoryItem::ToolOutput { call_id, text: Some(shown) } => r matches Some((id, text))
                && id@ == call_id@ && text@ == shown@,
            _ => r is None,
        },
{
    match item {
        HistoryItem::ToolOutput { call_id, text } => match text {
            Some(shown) => Some((call_id.as_str(), shown.as_str())),
            None => None,
        },
        _ => None,
    }
}

fn find_output<'a>(history: &'a [HistoryItem], id: &str) -> (r: Option<&'a str>)
    ensures
        slice_of(r) == output_of(history@, id@),
{
    let mut left: usize = history.len();
    assert(history@.take(left as int) =~= history@);
    while left > 0
        invariant
            left <= history@.len(),
            output_of(history@, id@) == output_of(history@.take(left as int), id@),
        decreases left,
    {
        assert(history@.take(left as int).drop_last() =~= history@.take(left - 1));
        assert(history@.take(left as int).last() == history@[left - 1]);
        if let Some((call_id, text)) = tool_call_output_text(&history[left - 1]) {
            if text_eq(call_id, id) {
                return Some(text);
            }
        }
        left -= 1;
    }
    None
}

fn summary_line(history: &[HistoryItem], item: &HistoryItem) -> (r: Option<(String, String)>)
    ensures
        match tool_of(*item) {
            Some(name) => r matches Some((tool, line)) && tool@ == name && line@ == item_line(
                history@,
                *item,
            ),
            None => r is None,
        },
{
    match item {
        HistoryItem::FunctionCall { name, arguments, call_id } => {
            let output = find_output(history, call_id.as_str());
            Some(
                (
                    owned(name.as_str()),
                    function_call_summary_line(name.as_str(), arguments.as_str(), output),
                ),
            )
        },
        HistoryItem::CustomToolCall { name, input } => Some(
            (
                owned(name.as_str()),
                generic_tool_summary_line(name.as_str(), Some(input.as_str())),
            ),
        ),
        HistoryItem::ToolSearchCall { execution, arguments } => Some(
            (
                owned(execution.as_str()),
                generic_json_tool_summary_line(execution.as_str(), arguments.as_str()),
            ),
        ),
        HistoryItem::LocalShellCall { command } => Some(
            (owned("shell"), local_shell_summary_line(command.as_slice())),
        ),
        HistoryItem::WebSearchCall => Some((owned("web_search"), owned("Web Search"))),
        HistoryItem::ImageGenerationCall => Some(
            (owned("image_generation"), owned("Image Generation")),
        ),
        HistoryItem::ToolOutput { .. } => None,
        HistoryItem::Other => None,
    }
}

proof fn lemma_counts_bounded(list: Seq<(Seq<char>, nat)>, name: Seq<char>, bound: nat)
    requires
        forall|i: int| 0 <= i < list.len() ==> (#[trigger] list[i]).1 <= bound,
    ensures
        forall|i: int|
            0 <= i < counted(list, name).len() ==> (#[trigger] counted(list, name)[i]).1 <= bound
                + 1,
{
    lemma_place_of(list, name);
}

/// Sums up what an agent did.
pub fn collab_agent_tool_summary_from_history(history: &[HistoryItem]) -> (r:
    CollabAgentToolSummary)
    ensures
        counts(r.tools@) == tools_used(history@, history@.len()),
        texts(r.output@) == lines_for(history@, history@.len()),
{
    let total: usize = history.len();
    let mut tools: Vec<ToolCount> = Vec::new();
    let mut output: Vec<String> = Vec::new();
    let mut i: usize = 0;
    assert(counts(tools@) =~= Seq::<(Seq<char>, nat)>::empty());
    assert(texts(output@) =~= Seq::<Seq<char>>::empty());
    while i < total
        invariant
            i <= total == history@.len(),
            counts(tools@) == tools_used(history@, i as nat),
            texts(output@) == lines_for(history@, i as nat),
            forall|j: int| 0 <= j < counts(tools@).len() ==> (#[trigger] counts(tools@)[j]).1 <= i,
        decreases total - i,
    {
        if let Some((name, line)) = summary_line(history, &history[i]) {
            proof {
                lemma_counts_bounded(counts(tools@), name@, i as nat);
                lemma_place_of(counts(tools@), name@);
                if let Some(at) = place_of(counts(tools@), name@) {
                    assert(counts(tools@)[at].1 <= i);
                }
            }
            increment_tool_count(&mut tools, name.as_str());
            let ghost before = output@;
            output.push(line);
            assert(texts(output@) =~= texts(before).push(line@));
        }
        i += 1;
    }
    CollabAgentToolSummary { tools, output }
}

/// The summary of an agent's history, if it used a tool at all.
pub fn collab_agent_tool_summary(history: Option<&[HistoryItem]>) -> (r: Option<
    CollabAgentToolSummary,
>)
    ensures
        match history {
            Some(items) => {
                let used = tools_used(items@, items@.len());
                if used.len() == 0 {
                    r is None
                } else {
                    &&& r matches Some(summary)
                    &&& counts(summary.tools@) == used
                    &&& texts(summary.output@) == lines_for(items@, items@.len())
                }
            },
            None => r is None,
        },
{
    match history {
        Some(items) => {
            let summary = collab_agent_tool_summary_from_history(items);
            assert(counts(summary.tools@).len() == summary.tools@.len());
            if summary.tools.len() == 0 {
                None
            } else {
                Some(summary)
            }
        },
        None => None,
    }
}

/// How often a tool is used in the first `count` items.
pub open spec fn uses(history: Seq<HistoryItem>, name: Seq<char>, count: nat) -> nat
    decreases count,
{
    if count == 0 {
        0
    } else {
        uses(history, name, (count - 1) as nat) + if tool_of(history[count - 1]) == Some(name) {
            1nat
        } else {
            0
        }
    }
}

/// The summary lists exactly the tools that were used, each once, with the number of its uses.
pub proof fn law_summary_counts_every_use(history: Seq<HistoryItem>, count: nat, name: Seq<char>)
    requires
        count <= history.len(),
    ensures
        match place_of(tools_used(history, count), name) {
            Some(at) => {
                &&& tools_used(history, count)[at].1 == uses(history, name, count)
                &&& uses(history, name, count) > 0
            },
            None => uses(history, name, count) == 0,
        },
        forall|i: int, j: int|
            0 <= i < j < tools_used(history, count).len() ==> (#[trigger] tools_used(
                history,
                count,
            )[i]).0 != (#[trigger] tools_used(history, count)[j]).0,
    decreases count,
{
    if count > 0 {
        let last = (count - 1) as nat;
        law_summary_counts_every_use(history, last, name);
        let before = tools_used(history, last);
        let after = tools_used(history, count);
        if let Some(used) = tool_of(history[count - 1]) {
            lemma_place_of(before, used);
            lemma_place_of(before, name);
            lemma_place_of(after, name);
            match place_of(before, used) {
                Some(at) => {
                    assert forall|i: int| 0 <= i < after.len() implies (#[trigger] after[i]).0
                        == before[i].0 by {}
                    if let Some(got) = place_of(before, name) {
                        assert forall|i: int| 0 <= i < got implies (#[trigger] after[i]).0
                            != name by {
                            assert(before[i].0 != name);
                        }
                        lemma_place_unique(after, name, got);
                    } else if let Some(got) = place_of(after, name) {
                        assert(before[got].0 != name);
                    }
                },
                None => {
                    assert forall|i: int, j: int| 0 <= i < j < after.len() implies (
                    #[trigger] after[i]).0 != (#[trigger] after[j]).0 by {
                        assert(after[i] == before[i]);
                        if j < before.len() {
                            assert(after[j] == before[j]);
                        } else {
                            assert(before[i].0 != used);
                        }
                    }
                    if let Some(got) = place_of(before, name) {
                        assert forall|i: int| 0 <= i < got implies (#[trigger] after[i]).0
                            != name by {
                            assert(before[i].0 != name);
                        }
                        assert(after[got] == before[got]);
                        lemma_place_unique(after, name, got);
                    } else if name == used {
                        let at = before.len() as int;
                        assert forall|i: int| 0 <= i < at implies (#[trigger] after[i]).0
                            != name by {
                            assert(before[i].0 != name);
                        }
                        lemma_place_unique(after, name, at);
                    } else if let Some(got) = place_of(after, name) {
                        assert(got < before.len());
                        assert(before[got].0 != name);
                    }
                },
            }
        }
    }
}

} // verus!
