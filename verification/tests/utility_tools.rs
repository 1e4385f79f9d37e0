use codex_tools_core::schema::{ApplyPatchToolArgs, JsonSchema, ResponsesApiTool, ToolSpec};
use codex_tools_core::utility_tool::{
    create_delete_tool, create_edit_tool, create_glob_file_tool, create_grep_file_tool,
    create_list_dir_tool, create_read_file_tool, create_search_file_tool, create_test_sync_tool,
    create_write_tool, edit_operation_schema,
};

fn of(tool: ToolSpec) -> ResponsesApiTool {
    let ToolSpec::Function(function) = tool;
    function
}

fn parts(schema: &JsonSchema) -> (Vec<(String, JsonSchema)>, Vec<String>) {
    let JsonSchema::Object { properties, required, additional_properties } = schema else {
        panic!("parameters are an object");
    };
    assert_eq!(*additional_properties, Some(false));
    let names = (0..properties.len())
        .map(|index| properties.entry(index))
        .map(|(name, held)| (name.to_string(), copy(held)))
        .collect();
    let required = required.as_ref().map_or_else(Vec::new, |list| list.to_vec());
    (names, required)
}

fn copy(schema: &JsonSchema) -> JsonSchema {
    match schema {
        JsonSchema::Text { description, choices } => {
            JsonSchema::Text { description: description.clone(), choices: choices.clone() }
        }
        JsonSchema::Number { description } => {
            JsonSchema::Number { description: description.clone() }
        }
        JsonSchema::Boolean { description } => {
            JsonSchema::Boolean { description: description.clone() }
        }
        JsonSchema::Array { items, description } => {
            JsonSchema::array(copy(items), description.clone())
        }
        JsonSchema::Object { .. } => JsonSchema::string(None),
    }
}

fn names(tool: &ResponsesApiTool) -> Vec<String> {
    parts(&tool.parameters).0.into_iter().map(|part| part.0).collect()
}

fn text(description: &str) -> JsonSchema {
    JsonSchema::string(Some(description.to_string()))
}

fn number(description: &str) -> JsonSchema {
    JsonSchema::number(Some(description.to_string()))
}

fn flag(description: &str) -> JsonSchema {
    JsonSchema::boolean(Some(description.to_string()))
}

fn choice(choices: &[&str], description: &str) -> JsonSchema {
    JsonSchema::string_enum(
        choices.iter().map(|choice| choice.to_string()).collect(),
        Some(description.to_string()),
    )
}

fn check(tool: ToolSpec, name: &str, description: &str, required: &[&str]) -> ResponsesApiTool {
    let function = of(tool);
    assert_eq!(function.name, name);
    assert_eq!(function.description, description);
    assert!(!function.strict);
    assert_eq!(function.defer_loading, None);
    assert_eq!(function.output_schema, None);
    assert_eq!(parts(&function.parameters).1, required);
    let known = names(&function);
    assert!(required.iter().all(|needed| known.contains(&needed.to_string())));
    function
}

#[test]
fn reading_takes_an_offset_or_lines() {
    let tool = check(
        create_read_file_tool(),
        "read_file",
        "Reads a local text file with optional line pagination.",
        &["path"],
    );
    let expected = vec![
        ("end_line", number("One-based inclusive end line. Requires start_line.")),
        (
            "include_line_numbers",
            flag("Whether to prefix each returned line with its one-based line number."),
        ),
        ("limit", number("Maximum number of lines to return.")),
        (
            "max_output_tokens",
            number("Maximum number of tokens to return. Excess output will be truncated."),
        ),
        ("offset", number("Zero-based line offset to start reading from.")),
        ("path", text("Path to the file to read.")),
        (
            "start_line",
            number("One-based start line. When set, this is used instead of offset."),
        ),
    ];
    let expected: Vec<(String, JsonSchema)> =
        expected.into_iter().map(|(name, held)| (name.to_string(), held)).collect();
    assert_eq!(parts(&tool.parameters).0, expected);
}

#[test]
fn searches_take_filters() {
    let search = check(
        create_search_file_tool(),
        "search_file",
        "Searches local file paths under one or more roots.",
        &["query"],
    );
    assert_eq!(
        names(&search),
        [
            "exclude",
            "exclude_globs",
            "include",
            "include_globs",
            "limit",
            "output_format",
            "query",
            "roots"
        ]
    );
    let grep = check(
        create_grep_file_tool(),
        "grep_file",
        "Searches local text file contents.",
        &["pattern"],
    );
    assert_eq!(
        names(&grep),
        [
            "case_sensitive",
            "context",
            "exclude",
            "exclude_globs",
            "include",
            "include_globs",
            "limit",
            "output_format",
            "pattern",
            "roots"
        ]
    );
    let glob = check(
        create_glob_file_tool(),
        "glob_file",
        "Finds local paths matching a glob pattern.",
        &["pattern"],
    );
    let held = parts(&glob.parameters).0;
    assert_eq!(
        held[0],
        (
            "entry_type".to_string(),
            choice(
                &["file", "dir", "any"],
                "Entry type to return. Defaults to file for backward compatibility."
            )
        )
    );
    assert_eq!(
        names(&glob),
        ["entry_type", "limit", "output_format", "pattern", "relative_only", "root"]
    );
    let list = check(
        create_list_dir_tool(),
        "list_dir",
        "Lists entries in a local directory with 1-indexed entry numbers and simple type labels.",
        &["dir_path"],
    );
    assert_eq!(names(&list), ["depth", "dir_path", "limit", "offset"]);
}

#[test]
fn changes_take_their_safeguards() {
    let edit = check(
        create_edit_tool(),
        "edit",
        "Edits a single local file. Prefer ops for atomic inserts, deletes, ranges, or multiple edits; legacy old_text/new_text remains supported.",
        &["path"],
    );
    assert_eq!(names(&edit), ["new_text", "occurrence", "old_text", "ops", "path"]);
    let (operation, required) = parts(&edit_operation_schema());
    assert_eq!(required, ["type"]);
    assert_eq!(operation.len(), 8);
    let write = check(
        create_write_tool(),
        "write",
        "Writes complete content to a local file.",
        &["path", "content"],
    );
    let held = parts(&write.parameters).0;
    assert_eq!(
        held[3],
        (
            "mode".to_string(),
            choice(
                &["overwrite", "create_new", "update_existing"],
                "Write mode. Defaults to overwrite for backward compatibility."
            )
        )
    );
    let delete = check(
        create_delete_tool(),
        "delete",
        "Deletes a local file, or a directory when recursive=true.",
        &["path"],
    );
    assert_eq!(names(&delete), ["dry_run", "expected_type", "path", "recursive"]);
}

#[test]
fn calls_can_meet_at_a_barrier() {
    let sync = check(
        create_test_sync_tool(),
        "test_sync_tool",
        "Internal synchronization helper used by Codex integration tests.",
        &[],
    );
    assert_eq!(names(&sync), ["barrier", "sleep_after_ms", "sleep_before_ms"]);
}

#[test]
fn patch_arguments_can_be_copied() {
    let args = ApplyPatchToolArgs { input: "*** Begin Patch".to_string() };
    assert_eq!(args.clone(), args);
    assert_ne!(args, ApplyPatchToolArgs { input: String::new() });
}
