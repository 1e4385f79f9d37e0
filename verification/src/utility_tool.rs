//! The tools that work on files, as the model sees them.
use vstd::prelude::*;
use vstd::string::*;

use crate::schema::{JsonSchema, Schema, SchemaMap, ToolSpec};
use crate::tool_parts::{
    a_flag, a_list, a_number, a_record, a_text, flag_schema, function_tool, is_function,
    number_schema, one_of, some_texts, text_schema, texts_schema,
};
use crate::text::{owned, texts};

verus! {

/// How results are answered.
pub open spec fn output_format() -> Schema {
    one_of(
        seq!["text"@, "json"@],
        "Output format. Defaults to text for backward compatibility.",
    )
}

fn output_format_schema() -> (r: JsonSchema)
    ensures
        r.model() == output_format(),
{
    let mut choices: Vec<String> = Vec::new();
    choices.push(owned("text"));
    choices.push(owned("json"));
    assert(texts(choices@) =~= seq!["text"@, "json"@]);
    JsonSchema::string_enum(
        choices,
        Some(owned("Output format. Defaults to text for backward compatibility.")),
    )
}

/// What the tool takes.
pub open spec fn read_file_properties() -> Map<Seq<char>, Schema> {
    map![
        "path"@ => a_text("Path to the file to read."),
        "offset"@ => a_number("Zero-based line offset to start reading from."),
        "limit"@ => a_number("Maximum number of lines to return."),
        "start_line"@ => a_number("One-based start line. When set, this is used instead of offset."),
        "end_line"@ => a_number("One-based inclusive end line. Requires start_line."),
        "include_line_numbers"@ => a_flag("Whether to prefix each returned line with its one-based line number."),
        "max_output_tokens"@ => a_number("Maximum number of tokens to return. Excess output will be truncated."),
    ]
}

fn read_file_map() -> (r: SchemaMap)
    ensures
        r@ == read_file_properties(),
{
    let mut properties = SchemaMap::new();
    properties.insert("path", text_schema("Path to the file to read."));
    properties.insert("offset", number_schema("Zero-based line offset to start reading from."));
    properties.insert("limit", number_schema("Maximum number of lines to return."));
    properties.insert("start_line", number_schema("One-based start line. When set, this is used instead of offset."));
    properties.insert("end_line", number_schema("One-based inclusive end line. Requires start_line."));
    properties.insert("include_line_numbers", flag_schema("Whether to prefix each returned line with its one-based line number."));
    properties.insert("max_output_tokens", number_schema("Maximum number of tokens to return. Excess output will be truncated."));
    properties
}

/// Reads a page of a file.
pub fn create_read_file_tool() -> (r: ToolSpec)
    ensures
        is_function(
            r,
            "read_file",
            "Reads a local text file with optional line pagination."@,
            read_file_properties(),
            Some(seq!["path"@]),
            None,
        ),
{
    let mut required: Vec<String> = Vec::new();
    required.push(owned("path"));
    assert(texts(required@) =~= seq!["path"@]);
    function_tool(
        "read_file",
        "Reads a local text file with optional line pagination.",
        read_file_map(),
        Some(required),
        None,
    )
}

/// What the tool takes.
pub open spec fn search_file_properties() -> Map<Seq<char>, Schema> {
    map![
        "query"@ => a_text("Path query to search for."),
        "roots"@ => some_texts("Root directories to search; defaults to the turn cwd."),
        "limit"@ => a_number("Maximum number of matches to return."),
        "include"@ => some_texts("Path substrings that must be present. This is not glob matching; use include_globs for glob patterns."),
        "exclude"@ => some_texts("Path substrings to exclude."),
        "include_globs"@ => some_texts("Glob patterns that matching paths must satisfy."),
        "exclude_globs"@ => some_texts("Glob patterns that matching paths must not satisfy."),
        "output_format"@ => output_format(),
    ]
}

fn search_file_map() -> (r: SchemaMap)
    ensures
        r@ == search_file_properties(),
{
    let mut properties = SchemaMap::new();
    properties.insert("query", text_schema("Path query to search for."));
    properties.insert("roots", texts_schema("Root directories to search; defaults to the turn cwd."));
    properties.insert("limit", number_schema("Maximum number of matches to return."));
    properties.insert("include", texts_schema("Path substrings that must be present. This is not glob matching; use include_globs for glob patterns."));
    properties.insert("exclude", texts_schema("Path substrings to exclude."));
    properties.insert("include_globs", texts_schema("Glob patterns that matching paths must satisfy."));
    properties.insert("exclude_globs", texts_schema("Glob patterns that matching paths must not satisfy."));
    properties.insert("output_format", output_format_schema());
    properties
}

/// Searches paths.
pub fn create_search_file_tool() -> (r: ToolSpec)
    ensures
        is_function(
            r,
            "search_file",
            "Searches local file paths under one or more roots."@,
            search_file_properties(),
            Some(seq!["query"@]),
            None,
        ),
{
    let mut required: Vec<String> = Vec::new();
    required.push(owned("query"));
    assert(texts(required@) =~= seq!["query"@]);
    function_tool(
        "search_file",
        "Searches local file paths under one or more roots.",
        search_file_map(),
        Some(required),
        None,
    )
}

/// What the tool takes.
pub open spec fn grep_file_properties() -> Map<Seq<char>, Schema> {
    map![
        "pattern"@ => a_text("Text or regex pattern to search for."),
        "roots"@ => some_texts("Root directories or files to search; defaults to the turn cwd."),
        "include"@ => some_texts("Path substrings that must be present. This is not glob matching; use include_globs for glob patterns."),
        "exclude"@ => some_texts("Path substrings to exclude."),
        "include_globs"@ => some_texts("Glob patterns that matching paths must satisfy."),
        "exclude_globs"@ => some_texts("Glob patterns that matching paths must not satisfy."),
        "case_sensitive"@ => a_flag("Whether matching is case-sensitive. Defaults to true."),
        "limit"@ => a_number("Maximum number of matches to return."),
        "context"@ => a_number("Number of surrounding lines to include for each match."),
        "output_format"@ => output_format(),
    ]
}

fn grep_file_map() -> (r: SchemaMap)
    ensures
        r@ == grep_file_properties(),
{
    let mut properties = SchemaMap::new();
    properties.insert("pattern", text_schema("Text or regex pattern to search for."));
    properties.insert("roots", texts_schema("Root directories or files to search; defaults to the turn cwd."));
    properties.insert("include", texts_schema("Path substrings that must be present. This is not glob matching; use include_globs for glob patterns."));
    properties.insert("exclude", texts_schema("Path substrings to exclude."));
    properties.insert("include_globs", texts_schema("Glob patterns that matching paths must satisfy."));
    properties.insert("exclude_globs", texts_schema("Glob patterns that matching paths must not satisfy."));
    properties.insert("case_sensitive", flag_schema("Whether matching is case-sensitive. Defaults to true."));
    properties.insert("limit", number_schema("Maximum number of matches to return."));
    properties.insert("context", number_schema("Number of surrounding lines to include for each match."));
    properties.insert("output_format", output_format_schema());
    properties
}

/// Searches in files.
pub fn create_grep_file_tool() -> (r: ToolSpec)
    ensures
        is_function(
            r,
            "grep_file",
            "Searches local text file contents."@,
            grep_file_properties(),
            Some(seq!["pattern"@]),
            None,
        ),
{
    let mut required: Vec<String> = Vec::new();
    required.push(owned("pattern"));
    assert(texts(required@) =~= seq!["pattern"@]);
    function_tool(
        "grep_file",
        "Searches local text file contents.",
        grep_file_map(),
        Some(required),
        None,
    )
}

/// What the tool takes.
pub open spec fn glob_file_properties() -> Map<Seq<char>, Schema> {
    map![
        "pattern"@ => a_text("Glob pattern to match."),
        "root"@ => a_text("Root directory for relative patterns; defaults to the turn cwd."),
        "limit"@ => a_number("Maximum number of matches to return."),
        "relative_only"@ => a_flag("Whether text output should return paths relative to root when possible."),
        "entry_type"@ => one_of(seq!["file"@, "dir"@, "any"@], "Entry type to return. Defaults to file for backward compatibility."),
        "output_format"@ => output_format(),
    ]
}

fn glob_file_map() -> (r: SchemaMap)
    ensures
        r@ == glob_file_properties(),
{
    let mut properties = SchemaMap::new();
    properties.insert("pattern", text_schema("Glob pattern to match."));
    properties.insert("root", text_schema("Root directory for relative patterns; defaults to the turn cwd."));
    properties.insert("limit", number_schema("Maximum number of matches to return."));
    properties.insert("relative_only", flag_schema("Whether text output should return paths relative to root when possible."));
    let mut choices: Vec<String> = Vec::new();
    choices.push(owned("file"));
    choices.push(owned("dir"));
    choices.push(owned("any"));
    assert(texts(choices@) =~= seq!["file"@, "dir"@, "any"@]);
    properties.insert("entry_type", JsonSchema::string_enum(choices, Some(owned("Entry type to return. Defaults to file for backward compatibility."))));
    properties.insert("output_format", output_format_schema());
    properties
}

/// Finds paths by a glob.
pub fn create_glob_file_tool() -> (r: ToolSpec)
    ensures
        is_function(
            r,
            "glob_file",
            "Finds local paths matching a glob pattern."@,
            glob_file_properties(),
            Some(seq!["pattern"@]),
            None,
        ),
{
    let mut required: Vec<String> = Vec::new();
    required.push(owned("pattern"));
    assert(texts(required@) =~= seq!["pattern"@]);
    function_tool(
        "glob_file",
        "Finds local paths matching a glob pattern.",
        glob_file_map(),
        Some(required),
        None,
    )
}

/// What the tool takes.
pub open spec fn list_dir_properties() -> Map<Seq<char>, Schema> {
    map![
        "dir_path"@ => a_text("Absolute path to the directory to list."),
        "offset"@ => a_number("The entry number to start listing from. Must be 1 or greater."),
        "limit"@ => a_number("The maximum number of entries to return."),
        "depth"@ => a_number("The maximum directory depth to traverse. Must be 1 or greater."),
    ]
}

fn list_dir_map() -> (r: SchemaMap)
    ensures
        r@ == list_dir_properties(),
{
    let mut properties = SchemaMap::new();
    properties.insert("dir_path", text_schema("Absolute path to the directory to list."));
    properties.insert("offset", number_schema("The entry number to start listing from. Must be 1 or greater."));
    properties.insert("limit", number_schema("The maximum number of entries to return."));
    properties.insert("depth", number_schema("The maximum directory depth to traverse. Must be 1 or greater."));
    properties
}

/// Lists a directory.
pub fn create_list_dir_tool() -> (r: ToolSpec)
    ensures
        is_function(
            r,
            "list_dir",
            "Lists entries in a local directory with 1-indexed entry numbers and simple type labels."@,
            list_dir_properties(),
            Some(seq!["dir_path"@]),
            None,
        ),
{
    let mut required: Vec<String> = Vec::new();
    required.push(owned("dir_path"));
    assert(texts(required@) =~= seq!["dir_path"@]);
    function_tool(
        "list_dir",
        "Lists entries in a local directory with 1-indexed entry numbers and simple type labels.",
        list_dir_map(),
        Some(required),
        None,
    )
}

/// The parts of the following.
pub open spec fn edit_operation_properties() -> Map<Seq<char>, Schema> {
    map![
        "type"@ => one_of(seq!["replace"@, "insert_before"@, "insert_after"@, "replace_range"@, "delete_range"@, "delete_text"@], "Operation to apply in order. replace/delete_text use old_text; insert_* use anchor and text; *_range use one-based inclusive start_line and end_line in the current text for that operation."),
        "old_text"@ => a_text("Existing text to replace or delete."),
        "new_text"@ => a_text("Replacement text for replace or replace_range."),
        "anchor"@ => a_text("Existing text to insert before or after."),
        "text"@ => a_text("Text to insert."),
        "occurrence"@ => a_number("One-based occurrence to edit. Omit only when old_text or anchor occurs exactly once."),
        "start_line"@ => a_number("One-based first line for range operations."),
        "end_line"@ => a_number("One-based inclusive last line for range operations."),
    ]
}

fn edit_operation_map() -> (r: SchemaMap)
    ensures
        r@ == edit_operation_properties(),
{
    let mut properties = SchemaMap::new();
    let mut choices: Vec<String> = Vec::new();
    choices.push(owned("replace"));
    choices.push(owned("insert_before"));
    choices.push(owned("insert_after"));
    choices.push(owned("replace_range"));
    choices.push(owned("delete_range"));
    choices.push(owned("delete_text"));
    assert(texts(choices@) =~= seq!["replace"@, "insert_before"@, "insert_after"@, "replace_range"@, "delete_range"@, "delete_text"@]);
    properties.insert("type", JsonSchema::string_enum(choices, Some(owned("Operation to apply in order. replace/delete_text use old_text; insert_* use anchor and text; *_range use one-based inclusive start_line and end_line in the current text for that operation."))));
    properties.insert("old_text", text_schema("Existing text to replace or delete."));
    properties.insert("new_text", text_schema("Replacement text for replace or replace_range."));
    properties.insert("anchor", text_schema("Existing text to insert before or after."));
    properties.insert("text", text_schema("Text to insert."));
    properties.insert("occurrence", number_schema("One-based occurrence to edit. Omit only when old_text or anchor occurs exactly once."));
    properties.insert("start_line", number_schema("One-based first line for range operations."));
    properties.insert("end_line", number_schema("One-based inclusive last line for range operations."));
    properties
}

/// One operation of an edit.
pub open spec fn edit_operation() -> Schema {
    a_record(edit_operation_properties(), Some(seq!["type"@]))
}

/// One operation of an edit.
pub fn edit_operation_schema() -> (r: JsonSchema)
    ensures
        r.model() == edit_operation(),
{
    let mut required: Vec<String> = Vec::new();
    required.push(owned("type"));
    assert(texts(required@) =~= seq!["type"@]);
    JsonSchema::object(edit_operation_map(), Some(required), Some(false))
}

/// What the tool takes.
pub open spec fn edit_properties() -> Map<Seq<char>, Schema> {
    map![
        "path"@ => a_text("Path to the file to edit."),
        "ops"@ => a_list(edit_operation(), "Atomic edit operations to apply in order. Use this for inserts, deletions, ranges, or multiple edits."),
        "old_text"@ => a_text("Legacy single-replacement text. Prefer ops for new calls."),
        "new_text"@ => a_text("Legacy single-replacement text. Prefer ops for new calls."),
        "occurrence"@ => a_number("Legacy one-based occurrence to replace. Omit only when old_text occurs exactly once."),
    ]
}

fn text_replacement_properties() -> (r: SchemaMap)
    ensures
        r@ == edit_properties(),
{
    let mut properties = SchemaMap::new();
    properties.insert("path", text_schema("Path to the file to edit."));
    properties.insert("ops", JsonSchema::array(edit_operation_schema(), Some(owned("Atomic edit operations to apply in order. Use this for inserts, deletions, ranges, or multiple edits."))));
    properties.insert("old_text", text_schema("Legacy single-replacement text. Prefer ops for new calls."));
    properties.insert("new_text", text_schema("Legacy single-replacement text. Prefer ops for new calls."));
    properties.insert("occurrence", number_schema("Legacy one-based occurrence to replace. Omit only when old_text occurs exactly once."));
    properties
}

/// Edits a file.
pub fn create_edit_tool() -> (r: ToolSpec)
    ensures
        is_function(
            r,
            "edit",
            "Edits a single local file. Prefer ops for atomic inserts, deletes, ranges, or multiple edits; legacy old_text/new_text remains supported."@,
            edit_properties(),
            Some(seq!["path"@]),
            None,
        ),
{
    let mut required: Vec<String> = Vec::new();
    required.push(owned("path"));
    assert(texts(required@) =~= seq!["path"@]);
    function_tool(
        "edit",
        "Edits a single local file. Prefer ops for atomic inserts, deletes, ranges, or multiple edits; legacy old_text/new_text remains supported.",
        text_replacement_properties(),
        Some(required),
        None,
    )
}

/// What the tool takes.
pub open spec fn write_properties() -> Map<Seq<char>, Schema> {
    map![
        "path"@ => a_text("Path to write."),
        "content"@ => a_text("Complete file content."),
        "create_parent_dirs"@ => a_flag("Whether to create missing parent directories. Defaults to false."),
        "mode"@ => one_of(seq!["overwrite"@, "create_new"@, "update_existing"@], "Write mode. Defaults to overwrite for backward compatibility."),
        "expected_hash"@ => a_text("Optional sha1:<hex> hash of the current file content. The write is rejected if it does not match."),
    ]
}

fn write_map() -> (r: SchemaMap)
    ensures
        r@ == write_properties(),
{
    let mut properties = SchemaMap::new();
    properties.insert("path", text_schema("Path to write."));
    properties.insert("content", text_schema("Complete file content."));
    properties.insert("create_parent_dirs", flag_schema("Whether to create missing parent directories. Defaults to false."));
    let mut choices: Vec<String> = Vec::new();
    choices.push(owned("overwrite"));
    choices.push(owned("create_new"));
    choices.push(owned("update_existing"));
    assert(texts(choices@) =~= seq!["overwrite"@, "create_new"@, "update_existing"@]);
    properties.insert("mode", JsonSchema::string_enum(choices, Some(owned("Write mode. Defaults to overwrite for backward compatibility."))));
    properties.insert("expected_hash", text_schema("Optional sha1:<hex> hash of the current file content. The write is rejected if it does not match."));
    properties
}

/// Writes a file.
pub fn create_write_tool() -> (r: ToolSpec)
    ensures
        is_function(
            r,
            "write",
            "Writes complete content to a local file."@,
            write_properties(),
            Some(seq!["path"@, "content"@]),
            None,
        ),
{
    let mut required: Vec<String> = Vec::new();
    required.push(owned("path"));
    required.push(owned("content"));
    assert(texts(required@) =~= seq!["path"@, "content"@]);
    function_tool(
        "write",
        "Writes complete content to a local file.",
        write_map(),
        Some(required),
        None,
    )
}

/// What the tool takes.
pub open spec fn delete_properties() -> Map<Seq<char>, Schema> {
    map![
        "path"@ => a_text("Path to delete."),
        "recursive"@ => a_flag("Required and true to delete a directory recursively."),
        "expected_type"@ => one_of(seq!["file"@, "dir"@], "Expected path type. The delete is rejected if the actual type does not match."),
        "dry_run"@ => a_flag("Report what would be deleted without deleting anything."),
    ]
}

fn delete_map() -> (r: SchemaMap)
    ensures
        r@ == delete_properties(),
{
    let mut properties = SchemaMap::new();
    properties.insert("path", text_schema("Path to delete."));
    properties.insert("recursive", flag_schema("Required and true to delete a directory recursively."));
    let mut choices: Vec<String> = Vec::new();
    choices.push(owned("file"));
    choices.push(owned("dir"));
    assert(texts(choices@) =~= seq!["file"@, "dir"@]);
    properties.insert("expected_type", JsonSchema::string_enum(choices, Some(owned("Expected path type. The delete is rejected if the actual type does not match."))));
    properties.insert("dry_run", flag_schema("Report what would be deleted without deleting anything."));
    properties
}

/// Deletes a file or a directory.
pub fn create_delete_tool() -> (r: ToolSpec)
    ensures
        is_function(
            r,
            "delete",
            "Deletes a local file, or a directory when recursive=true."@,
            delete_properties(),
            Some(seq!["path"@]),
            None,
        ),
{
    let mut required: Vec<String> = Vec::new();
    required.push(owned("path"));
    assert(texts(required@) =~= seq!["path"@]);
    function_tool(
        "delete",
        "Deletes a local file, or a directory when recursive=true.",
        delete_map(),
        Some(required),
        None,
    )
}

/// The parts of the following.
pub open spec fn barrier_properties() -> Map<Seq<char>, Schema> {
    map![
        "id"@ => a_text("Identifier shared by concurrent calls that should rendezvous"),
        "participants"@ => a_number("Number of tool calls that must arrive before the barrier opens"),
        "timeout_ms"@ => a_number("Maximum time in milliseconds to wait at the barrier"),
    ]
}

fn barrier_map() -> (r: SchemaMap)
    ensures
        r@ == barrier_properties(),
{
    let mut properties = SchemaMap::new();
    properties.insert("id", text_schema("Identifier shared by concurrent calls that should rendezvous"));
    properties.insert("participants", number_schema("Number of tool calls that must arrive before the barrier opens"));
    properties.insert("timeout_ms", number_schema("Maximum time in milliseconds to wait at the barrier"));
    properties
}

/// A barrier at which calls meet.
pub open spec fn barrier() -> Schema {
    a_record(barrier_properties(), Some(seq!["id"@, "participants"@]))
}

/// A barrier at which calls meet.
pub fn barrier_schema() -> (r: JsonSchema)
    ensures
        r.model() == barrier(),
{
    let mut required: Vec<String> = Vec::new();
    required.push(owned("id"));
    required.push(owned("participants"));
    assert(texts(required@) =~= seq!["id"@, "participants"@]);
    JsonSchema::object(barrier_map(), Some(required), Some(false))
}

/// What the tool takes.
pub open spec fn test_sync_properties() -> Map<Seq<char>, Schema> {
    map![
        "sleep_before_ms"@ => a_number("Optional delay in milliseconds before any other action"),
        "sleep_after_ms"@ => a_number("Optional delay in milliseconds after completing the barrier"),
        "barrier"@ => barrier(),
    ]
}

fn test_sync_map() -> (r: SchemaMap)
    ensures
        r@ == test_sync_properties(),
{
    let mut properties = SchemaMap::new();
    properties.insert("sleep_before_ms", number_schema("Optional delay in milliseconds before any other action"));
    properties.insert("sleep_after_ms", number_schema("Optional delay in milliseconds after completing the barrier"));
    properties.insert("barrier", barrier_schema());
    properties
}

/// Lets calls wait for each other.
pub fn create_test_sync_tool() -> (r: ToolSpec)
    ensures
        is_function(
            r,
            "test_sync_tool",
            "Internal synchronization helper used by Codex integration tests."@,
            test_sync_properties(),
            None,
            None,
        ),
{
    function_tool(
        "test_sync_tool",
        "Internal synchronization helper used by Codex integration tests.",
        test_sync_map(),
        None,
        None,
    )
}

} // verus!
