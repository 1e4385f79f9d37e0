use codex_tools_core::error::FunctionCallError;
use codex_tools_core::grep::{grep_structured_lines, grep_text_lines, matching_lines};
use codex_tools_core::paths::{
    fuzzy_score, glob_filter_warning, glob_match, glob_to_regex, is_default_excluded_dir,
    looks_like_glob, path_allowed, path_matches_glob, path_to_forward_slashes, PathFilters,
};
use codex_tools_core::read::{
    default_limit, default_search_limit, format_read_lines, numbered_line_ranges, read_lines,
    ReadFileArgs, DEFAULT_LIMIT,
};
use codex_tools_core::schema::{order_texts, JsonSchema, SchemaMap, TextOrder};
use codex_tools_core::walk::{
    best_matches, ensure_read_allowed, glob_text_output, roots_or_cwd, search_text_output,
    GlobEntryType, GlobMatch, SearchMatch,
};

fn strings(list: &[&str]) -> Vec<String> {
    list.iter().map(|text| text.to_string()).collect()
}

fn filters() -> PathFilters {
    PathFilters {
        included: Vec::new(),
        excluded: Vec::new(),
        include_globs: Vec::new(),
        exclude_globs: Vec::new(),
    }
}

#[test]
fn globs_match_within_and_across_directories() {
    assert!(glob_match("*.rs", "main.rs"));
    assert!(!glob_match("*.rs", "src/main.rs"));
    assert!(glob_match("src/**/*.rs", "src/a/b.rs"));
    assert!(glob_match("a?c", "abc"));
    assert!(!glob_match("a?c", "a/c"));
    assert!(glob_match("a+b.(c)", "a+b.(c)"));
    assert!(!glob_match("a.c", "abc"));
    assert!(glob_to_regex("a.b").contains("a\\.b"));
    assert!(path_matches_glob("*.rs", "/w/src/main.rs", Some("src/main.rs"), Some("main.rs")));
    assert!(!path_matches_glob("*.md", "/w/src/main.rs", Some("src/main.rs"), Some("main.rs")));
}

#[test]
fn filters_take_parts_and_globs() {
    let path = "/w/src/main.rs";
    let allowed = |filters: &PathFilters| {
        path_allowed(path, Some("src/main.rs"), Some("main.rs"), filters)
    };
    assert!(allowed(&filters()));
    let mut part = filters();
    part.included = strings(&["src"]);
    assert!(allowed(&part));
    part.included = strings(&["lib"]);
    assert!(!allowed(&part));
    let mut excluded = filters();
    excluded.excluded = strings(&["main"]);
    assert!(!allowed(&excluded));
    let mut glob = filters();
    glob.include_globs = strings(&["*.rs"]);
    assert!(allowed(&glob));
    glob.exclude_globs = strings(&["src/*"]);
    assert!(!allowed(&glob));
}

#[test]
fn parts_that_look_like_globs_are_warned_of() {
    assert!(looks_like_glob("*.rs"));
    assert!(looks_like_glob("[a]"));
    assert!(!looks_like_glob("src"));
    assert_eq!(glob_filter_warning(&strings(&["src"]), &[]), None);
    assert!(glob_filter_warning(&[], &strings(&["*.rs"])).unwrap().contains("`*.rs`"));
}

#[test]
fn some_directories_are_left_out() {
    assert!(is_default_excluded_dir(Some("target")));
    assert!(is_default_excluded_dir(Some(".git")));
    assert!(!is_default_excluded_dir(Some("src")));
    assert!(!is_default_excluded_dir(None));
    assert_eq!(path_to_forward_slashes("a\\b/c"), "a/b/c");
}

#[test]
fn searches_find_subsequences() {
    assert_eq!(fuzzy_score("src/main.rs", "mainrs"), Some(0));
    assert_eq!(fuzzy_score("ABC", "ac"), Some(0));
    assert_eq!(fuzzy_score("abc", "abc"), Some(-1));
    assert_eq!(fuzzy_score("abc", "ca"), None);
    assert_eq!(fuzzy_score("abc", ""), Some(i32::MAX));
}

fn found(path: &str, score: i32) -> SearchMatch {
    SearchMatch { path: path.to_string(), relative_path: None, score }
}

#[test]
fn the_best_matches_come_first() {
    let matches = [found("c", 5), found("a", 1), found("b", 5), found("d", -2)];
    let best = best_matches(&matches, 3);
    let listed: Vec<&str> = best.iter().map(|hit| hit.path.as_str()).collect();
    assert_eq!(listed[..2], ["d", "a"]);
    assert_eq!(best.len(), 3);
    assert!(search_text_output(&best, None).starts_with("d"));
    assert!(search_text_output(&[], Some("warning".to_string())).starts_with("warning"));
}

#[test]
fn globbed_paths_can_be_relative() {
    let hit = GlobMatch {
        path: "/w/a".to_string(),
        relative_path: Some("a".to_string()),
        entry_type: GlobEntryType::File,
    };
    assert_eq!(glob_text_output(&[hit], true), "a");
    let hit = GlobMatch {
        path: "/w/a".to_string(),
        relative_path: Some("a".to_string()),
        entry_type: GlobEntryType::Dir,
    };
    assert_eq!(hit.entry_type_name(), "dir");
    assert_eq!(glob_text_output(&[hit], false), "/w/a");
}

#[test]
fn denied_paths_are_not_read() {
    assert_eq!(ensure_read_allowed("/w", false), Ok(()));
    assert_eq!(
        ensure_read_allowed("/w", true),
        Err(FunctionCallError::RespondToModel(
            "access denied: reading `/w` is blocked by filesystem deny_read policy".to_string()
        ))
    );
    assert_eq!(roots_or_cwd("c", Vec::new()), vec!["c"]);
    assert_eq!(roots_or_cwd("c", vec!["r"]), vec!["r"]);
}

#[test]
fn matches_come_with_their_context() {
    let lines = strings(&["a", "b", "c", "d"]);
    let hits = matching_lines("^[bd]$", false, &lines);
    assert_eq!(hits, vec![false, true, false, true]);
    let mut shown = Vec::new();
    let (observed, full) = grep_text_lines("p", &lines, &hits, 1, 100, &mut shown);
    assert_eq!(shown, vec!["p:1:a", "p:2:b", "p:3:c", "p:3:c", "p:4:d"]);
    assert_eq!(observed, vec![1, 2, 3, 3, 4]);
    assert!(!full);
    let mut found = Vec::new();
    let (_, full) = grep_structured_lines("p", &lines, &hits, 1, 1, &mut found);
    assert!(full);
    assert_eq!(found.len(), 1);
    assert_eq!(found[0].line, 2);
    assert_eq!(found[0].context_after[0].text, "c");
    let mut all = Vec::new();
    grep_text_lines("p", &lines, &[false, true, false, false], usize::MAX, 100, &mut all);
    assert_eq!(all.len(), 4);
}

fn args() -> ReadFileArgs {
    ReadFileArgs {
        path: "p".to_string(),
        offset: 0,
        limit: DEFAULT_LIMIT,
        start_line: None,
        end_line: None,
        include_line_numbers: false,
        max_output_tokens: None,
    }
}

fn refused(args: &ReadFileArgs) -> String {
    let Err(FunctionCallError::RespondToModel(message)) = read_lines("a\nb\n", args) else {
        panic!("the arguments should be refused");
    };
    message
}

#[test]
fn a_start_line_is_used_instead_of_an_offset() {
    let mut mixed = args();
    mixed.offset = 1;
    mixed.start_line = Some(3);
    assert_eq!(read_lines("alpha\nbeta\ngamma\n", &mixed), Ok(vec![(3, "gamma".to_string())]));
    mixed.offset = usize::MAX;
    mixed.start_line = Some(1);
    mixed.end_line = Some(1);
    assert_eq!(read_lines("alpha\nbeta\n", &mixed), Ok(vec![(1, "alpha".to_string())]));
}

#[test]
fn ranges_that_name_no_lines_are_refused() {
    let mut end_only = args();
    end_only.end_line = Some(1);
    assert_eq!(refused(&end_only), "end_line requires start_line");
    let mut zero = args();
    zero.start_line = Some(0);
    assert_eq!(refused(&zero), "start_line must be one-based");
    let mut backwards = args();
    backwards.start_line = Some(2);
    backwards.end_line = Some(1);
    assert!(refused(&backwards).starts_with("end_line 1"));
}

#[test]
fn an_offset_is_a_start_line() {
    let mut page = args();
    page.offset = 1;
    let mut range = args();
    range.start_line = Some(2);
    assert_eq!(read_lines("a\nb\nc\n", &page), read_lines("a\nb\nc\n", &range));
    let lines = read_lines("a\nb\nc\n", &page).unwrap();
    assert_eq!(format_read_lines(&lines, true), "2:b\n3:c");
    assert_eq!(numbered_line_ranges(&lines), vec![(2, 2), (3, 3)]);
    assert_eq!(default_limit(), DEFAULT_LIMIT);
    assert!(default_search_limit() > 0);
}

#[test]
fn schemas_are_kept_in_order() {
    let mut map = SchemaMap::new();
    map.insert("b", JsonSchema::number(None));
    map.insert("a", JsonSchema::boolean(None));
    map.insert("b", JsonSchema::string(None));
    assert_eq!(map.len(), 2);
    assert_eq!(map.entry(0), ("a", &JsonSchema::boolean(None)));
    assert_eq!(map.entry(1), ("b", &JsonSchema::string(None)));
    assert_eq!(order_texts("a", "ab"), TextOrder::Before);
    assert_eq!(order_texts("b", "ab"), TextOrder::After);
    assert_eq!(order_texts("a", "a"), TextOrder::Same);
}
