use std::collections::{BTreeMap, BTreeSet};

use codex_tools_core::change::content_hash;
use codex_tools_core::edit::{EditApplyMode, EditArgs, EditOperation};
use codex_tools_core::error::FunctionCallError;
use codex_tools_core::file_flow::{
    delete_step, edit_step, start_delete, start_edit, start_write, write_step, FileAction,
    FileEvent, FileFinish, FileRecord,
};
use codex_tools_core::file_handler::{
    ensure_write_allowed, read_file, resolve_existing_write_target,
    DeleteArgs, DeleteExpectedType, FileChange, FileHandler, FileObservationError, FileTool,
    TargetStep, ToolKind, WriteArgs, WriteMode,
};
use codex_tools_core::grep::GrepMatch;
use codex_tools_core::line_range::LineRange;
use codex_tools_core::paths::PathFilters;
use codex_tools_core::read::{read_file_display_command, ReadFileArgs, DEFAULT_LIMIT};
use codex_tools_core::search_flow::{
    glob_step, grep_output, grep_step, search_step, start_glob, start_grep, start_search,
    GlobAction, GlobFileArgs, GlobOutput, GrepAction, GrepEvent, GrepFileArgs, GrepFound,
    GrepOutput, OutputFormat, SearchAction, SearchEvent, SearchFileArgs, SearchOutput,
};
use codex_tools_core::walk::{Entry, GlobEntryType, Visit};

const ROOT: &str = "/work";

/// Files in memory, links among them, and the lines of them that were read. Only what is under the
/// root may be written.
#[derive(Default)]
struct Files {
    texts: BTreeMap<String, String>,
    dirs: BTreeSet<String>,
    links: BTreeMap<String, String>,
    seen: BTreeMap<String, (String, BTreeSet<usize>)>,
}

fn full(path: &str) -> String {
    format!("{ROOT}/{path}")
}

fn lines_in(ranges: &[LineRange]) -> BTreeSet<usize> {
    ranges.iter().flat_map(|range| range.0..=range.1).collect()
}

impl Files {
    fn with(path: &str, text: &str) -> Files {
        let mut files = Files::default();
        files.texts.insert(full(path), text.to_string());
        files
    }

    fn text(&self, path: &str) -> &str {
        &self.texts[&full(path)]
    }

    fn put(&mut self, path: &str, text: &str) {
        self.texts.insert(full(path), text.to_string());
    }

    fn see(&mut self, path: &str, hash: String, lines: BTreeSet<usize>) {
        let entry = self.seen.entry(path.to_string()).or_default();
        if entry.0 != hash {
            *entry = (hash, BTreeSet::new());
        }
        entry.1.extend(lines);
    }

    fn read(&mut self, path: &str, args: &ReadFileArgs) -> Result<String, FunctionCallError> {
        let shown = read_file(&self.texts[&full(path)], args)?;
        let lines = lines_in(&shown.observed_ranges);
        self.see(&full(path), shown.content_hash, lines);
        Ok(shown.output)
    }

    fn read_lines(&mut self, path: &str, start: usize, end: usize) {
        self.read(path, &range_args(path, start, end)).expect("lines should be read");
    }

    fn check(
        &self,
        path: &str,
        hash: String,
        ranges: Vec<LineRange>,
    ) -> Result<(), FileObservationError> {
        let Some((observed_hash, lines)) = self.seen.get(path) else {
            return Err(FileObservationError::NotObserved);
        };
        if *observed_hash != hash {
            return Err(FileObservationError::Stale {
                observed_hash: observed_hash.clone(),
                current_hash: hash,
            });
        }
        let missing: Vec<LineRange> = lines_in(&ranges)
            .into_iter()
            .filter(|line| !lines.contains(line))
            .map(|line| (line, line))
            .collect();
        if missing.is_empty() {
            Ok(())
        } else {
            Err(FileObservationError::MissingLines { ranges: missing })
        }
    }

    fn record(&mut self, path: &str, record: &FileRecord) {
        match record {
            FileRecord::Nothing => {}
            FileRecord::Observation { content_hash, ranges } => {
                self.see(path, content_hash.clone(), lines_in(ranges));
            }
            FileRecord::Edit(edit) => {
                let mut lines = lines_in(&edit.changed_ranges);
                if let Some((hash, before)) = self.seen.get(path) {
                    if *hash == edit.previous_hash {
                        for (index, origin) in edit.line_origins.iter().enumerate() {
                            if origin.is_some_and(|line| before.contains(&line)) {
                                lines.insert(index + 1);
                            }
                        }
                    }
                }
                self.see(path, edit.content_hash.clone(), lines);
            }
        }
    }

    fn is_there(&self, path: &str) -> bool {
        path == ROOT
            || self.texts.contains_key(path)
            || self.dirs.contains(path)
            || self.links.contains_key(path)
    }

    fn check_write(&self, path: &str) -> Result<(), FunctionCallError> {
        let target = self.write_target(path).map(|target| {
            let writable = target.starts_with(ROOT);
            (target, writable)
        });
        ensure_write_allowed(path, path.starts_with(ROOT), Ok(target))
    }

    fn write_target(&self, path: &str) -> Option<String> {
        let mut ancestor = path;
        let mut levels = 0;
        loop {
            let parent = ancestor.rsplit_once('/').map(|parts| parts.0);
            match resolve_existing_write_target(levels, self.is_there(ancestor), parent.is_some())
            {
                TargetStep::Resolve { levels: resolved } => {
                    assert_eq!(resolved, levels);
                    let found = self.links.get(ancestor).map_or(ancestor, String::as_str);
                    return Some(format!("{found}{}", &path[ancestor.len()..]));
                }
                TargetStep::Look { levels: next } => {
                    levels = next;
                    ancestor = parent.expect("a path goes on above");
                }
                TargetStep::Unknown => return None,
            }
        }
    }

    /// Does what an action asks for. `Ok` is the answer of the call.
    fn perform(&mut self, path: &str, action: FileAction) -> Result<FileFinish, FileEvent> {
        let parent = path.rsplit_once('/').map_or("", |parts| parts.0).to_string();
        Err(match action {
            FileAction::CheckWrite => FileEvent::Access(self.check_write(path)),
            FileAction::CreateParents => {
                self.dirs.insert(parent);
                FileEvent::Done(Ok(()))
            }
            FileAction::LookForFile => FileEvent::Present(Ok(self.texts.contains_key(path))),
            FileAction::LookAtKind => {
                if self.dirs.contains(path) {
                    FileEvent::IsDir(Ok(true))
                } else if self.texts.contains_key(path) {
                    FileEvent::IsDir(Ok(false))
                } else {
                    FileEvent::IsDir(Err("not found".to_string()))
                }
            }
            FileAction::ReadText => FileEvent::Text(
                self.texts.get(path).cloned().ok_or_else(|| "not found".to_string()),
            ),
            FileAction::CheckObserved { content_hash, ranges } => {
                FileEvent::Observed(self.check(path, content_hash, ranges))
            }
            FileAction::Write { content, .. } => {
                self.texts.insert(path.to_string(), content);
                FileEvent::Done(Ok(()))
            }
            FileAction::Remove { is_dir, .. } => {
                if is_dir {
                    let inside = format!("{path}/");
                    self.texts.retain(|held, _| !held.starts_with(&inside));
                    self.dirs.remove(path);
                } else {
                    self.texts.remove(path);
                }
                FileEvent::Done(Ok(()))
            }
            FileAction::Finish(finish) => {
                self.record(path, &finish.record);
                return Ok(finish);
            }
        })
    }

    fn edit(&mut self, args: EditArgs) -> Result<String, FunctionCallError> {
        let path = full(&args.path);
        let (mut state, mut action) = start_edit(args);
        loop {
            match self.perform(&path, action) {
                Ok(finish) => return finish.result,
                Err(event) => (state, action) = edit_step(&path, state, event),
            }
        }
    }

    fn write(&mut self, args: WriteArgs) -> FileFinish {
        let path = full(&args.path);
        let (mut state, mut action) = start_write(args);
        loop {
            match self.perform(&path, action) {
                Ok(finish) => return finish,
                Err(event) => (state, action) = write_step(&path, true, state, event),
            }
        }
    }

    fn delete(&mut self, args: DeleteArgs) -> Result<String, FunctionCallError> {
        let path = full(&args.path);
        let (mut state, mut action) = start_delete(args);
        loop {
            match self.perform(&path, action) {
                Ok(finish) => return finish.result,
                Err(event) => (state, action) = delete_step(&path, state, event),
            }
        }
    }

    fn visit(&self, root: &str, path: &str) -> Visit<String> {
        let relative_path = path.strip_prefix(&format!("{root}/")).map(str::to_string);
        let entry = Entry {
            path: path.to_string(),
            relative_path,
            name: path.rsplit('/').next().map(str::to_string),
        };
        if self.texts.contains_key(path) {
            return Visit::File { entry };
        }
        if !self.dirs.contains(path) && path != ROOT {
            return Visit::Missing;
        }
        let inside = format!("{path}/");
        let names: Vec<String> = self
            .texts
            .keys()
            .chain(self.dirs.iter())
            .filter(|held| {
                held.starts_with(&inside) && !held[inside.len()..].contains('/')
            })
            .cloned()
            .collect();
        Visit::Directory { entry, listing: Some(Ok(names)) }
    }

    fn search(&self, args: &SearchFileArgs) -> Result<SearchOutput, FunctionCallError> {
        let (mut state, mut action) = start_search::<String>();
        loop {
            let event = match action {
                SearchAction::Root(_) => SearchEvent::Root(ROOT.to_string()),
                SearchAction::Visit(path) => SearchEvent::Visited(self.visit(ROOT, &path)),
                SearchAction::Finish(result) => return result,
            };
            action = search_step(args, 1, &mut state, event);
        }
    }

    fn glob(&self, args: &GlobFileArgs) -> Result<GlobOutput, FunctionCallError> {
        let (mut state, mut action) = start_glob(ROOT.to_string());
        loop {
            match action {
                GlobAction::Visit(path) => {
                    let visit = self.visit(ROOT, &path);
                    action = glob_step(args, &mut state, visit);
                }
                GlobAction::Finish(result) => return result,
            }
        }
    }

    fn grep(&mut self, args: &GrepFileArgs) -> Result<GrepOutput, FunctionCallError> {
        let (mut state, mut action) = start_grep::<String>(args)?;
        loop {
            let event = match action {
                GrepAction::Root(_) => GrepEvent::Root(ROOT.to_string()),
                GrepAction::Visit(path) => {
                    let visit = self.visit(ROOT, &path);
                    GrepEvent::Visited { path, visit }
                }
                GrepAction::Read(path) => {
                    let text = self.texts.get(&path).cloned();
                    GrepEvent::Read { shown: path.clone(), path, text }
                }
                GrepAction::Finish(result) => {
                    result?;
                    for held in state.observations {
                        self.see(&held.path, held.content_hash, held.lines.into_iter().collect());
                    }
                    return Ok(grep_output(&args.filters, state.found));
                }
            };
            action = grep_step(&args.filters, 1, &mut state, event);
        }
    }
}

fn range_args(path: &str, start: usize, end: usize) -> ReadFileArgs {
    ReadFileArgs {
        path: path.to_string(),
        offset: 0,
        limit: DEFAULT_LIMIT,
        start_line: Some(start),
        end_line: Some(end),
        include_line_numbers: false,
        max_output_tokens: None,
    }
}

fn legacy(path: &str, old: &str, new: &str, occurrence: Option<usize>) -> EditArgs {
    EditArgs {
        path: path.to_string(),
        apply_mode: EditApplyMode::default(),
        old_text: Some(old.to_string()),
        new_text: Some(new.to_string()),
        occurrence,
        ops: Vec::new(),
    }
}

fn ops(path: &str, apply_mode: EditApplyMode, ops: Vec<EditOperation>) -> EditArgs {
    EditArgs {
        path: path.to_string(),
        apply_mode,
        old_text: None,
        new_text: None,
        occurrence: None,
        ops,
    }
}

fn replace(old: &str, new: &str, occurrence: Option<usize>) -> EditOperation {
    EditOperation::Replace {
        old_text: old.to_string(),
        new_text: new.to_string(),
        occurrence,
    }
}

fn write_args(path: &str, content: &str) -> WriteArgs {
    WriteArgs {
        path: path.to_string(),
        content: content.to_string(),
        create_parent_dirs: false,
        mode: WriteMode::default(),
        expected_hash: None,
    }
}

fn delete_args(path: &str) -> DeleteArgs {
    DeleteArgs { path: path.to_string(), recursive: false, expected_type: None, dry_run: false }
}

fn no_filters() -> PathFilters {
    PathFilters {
        included: Vec::new(),
        excluded: Vec::new(),
        include_globs: Vec::new(),
        exclude_globs: Vec::new(),
    }
}

fn respond(message: &str) -> FunctionCallError {
    FunctionCallError::RespondToModel(message.to_string())
}

fn sources() -> Files {
    let mut files = Files::default();
    files.dirs.insert(full("src"));
    files.dirs.insert(full("target"));
    files.put("src/main.rs", "fn main() { println!(\"alpha\"); }\n");
    files.put("README.md", "omega\n");
    files.put("target/main.rs", "fn generated() {}\n");
    files
}

fn glob_args(pattern: &str) -> GlobFileArgs {
    GlobFileArgs {
        pattern: pattern.to_string(),
        root: None,
        limit: 50,
        relative_only: false,
        entry_type: GlobEntryType::default(),
        output_format: OutputFormat::Text,
    }
}

fn grep_args(pattern: &str) -> GrepFileArgs {
    GrepFileArgs {
        pattern: pattern.to_string(),
        roots: Vec::new(),
        filters: no_filters(),
        case_sensitive: true,
        limit: 5,
        context: 0,
        output_format: OutputFormat::Text,
    }
}

fn search_args(query: &str) -> SearchFileArgs {
    SearchFileArgs {
        query: query.to_string(),
        roots: Vec::new(),
        limit: 5,
        filters: no_filters(),
        output_format: OutputFormat::Text,
    }
}

#[test]
fn read_file_display_command_keeps_range_arguments() {
    assert_eq!(
        read_file_display_command(&range_args("sample.txt", 85, 97)),
        "read_file --start-line=85 --end-line=97"
    );

    let args = ReadFileArgs {
        path: "sample.txt".to_string(),
        offset: 0,
        limit: 80,
        start_line: Some(1),
        end_line: None,
        include_line_numbers: false,
        max_output_tokens: None,
    };
    assert_eq!(read_file_display_command(&args), "read_file --start-line=1 --limit=80");
}

#[test]
fn read_file_returns_requested_page() {
    let mut files = Files::with("sample.txt", "alpha\nbeta\ngamma\n");
    let args = ReadFileArgs {
        path: "sample.txt".to_string(),
        offset: 1,
        limit: 1,
        start_line: None,
        end_line: None,
        include_line_numbers: false,
        max_output_tokens: None,
    };
    assert_eq!(files.read("sample.txt", &args), Ok("beta".to_string()));
}

#[test]
fn pages_follow_each_other() {
    let text = "a\nb\nc\nd\ne\n";
    let page = |offset: usize, limit: usize| {
        let args = ReadFileArgs {
            path: "sample.txt".to_string(),
            offset,
            limit,
            start_line: None,
            end_line: None,
            include_line_numbers: false,
            max_output_tokens: None,
        };
        read_file(text, &args).expect("a page").output
    };
    assert_eq!(page(1, 3), "b\nc\nd");
    assert_eq!(format!("{}\n{}", page(1, 1), page(2, 2)), page(1, 3));
    assert_eq!(page(9, 3), "");
}

#[test]
fn read_file_supports_line_range_and_line_numbers() {
    let mut files = Files::with("sample.txt", "alpha\nbeta\ngamma\n");
    let mut args = range_args("sample.txt", 2, 3);
    args.include_line_numbers = true;
    assert_eq!(files.read("sample.txt", &args), Ok("2:beta\n3:gamma".to_string()));
}

#[test]
fn search_grep_and_glob_return_structured_output() {
    let mut files = Files::default();
    files.dirs.insert(full("src"));
    files.put("src/main.rs", "alpha\nbeta\ngamma\n");

    let mut search = search_args("mainrs");
    search.filters.include_globs = vec!["*.rs".to_string()];
    search.output_format = OutputFormat::Json;
    let Ok(SearchOutput::Json(found)) = files.search(&search) else {
        panic!("expected structured matches");
    };
    assert_eq!(found[0].relative_path.as_deref(), Some("src/main.rs"));

    let mut grep = grep_args("beta");
    grep.context = 1;
    grep.output_format = OutputFormat::Json;
    let Ok(GrepOutput::Json(found)) = files.grep(&grep) else {
        panic!("expected structured matches");
    };
    let first: &GrepMatch = &found[0];
    assert_eq!(first.line, 2);
    assert_eq!(first.context_before[0].text, "alpha");
    assert_eq!(first.context_after[0].text, "gamma");

    let mut glob = glob_args("src/*.rs");
    glob.relative_only = true;
    glob.output_format = OutputFormat::Json;
    let Ok(GlobOutput::Json(found)) = files.glob(&glob) else {
        panic!("expected structured matches");
    };
    assert_eq!(found[0].relative_path.as_deref(), Some("src/main.rs"));
    assert_eq!(found[0].entry_type_name(), "file");
}

#[test]
fn search_grep_and_glob_return_matches() {
    let mut files = sources();

    let Ok(SearchOutput::Text(found)) = files.search(&search_args("mainrs")) else {
        panic!("expected text");
    };
    assert!(found.contains("src/main.rs"));
    assert!(!found.contains("target/main.rs"));

    let mut grep = grep_args("println");
    grep.filters.include_globs = vec!["*.rs".to_string()];
    let Ok(GrepOutput::Text(found)) = files.grep(&grep) else {
        panic!("expected text");
    };
    assert!(found.contains("src/main.rs:1:fn main()"));

    let mut grep = grep_args("println");
    grep.filters.included = vec!["*.rs".to_string()];
    assert_eq!(
        files.grep(&grep),
        Ok(GrepOutput::Text(
            "warning: include/exclude use substring matching, not glob matching; use include_globs/exclude_globs for patterns like `*.rs`"
                .to_string()
        ))
    );

    for (pattern, wanted) in
        [("*.md", "README.md"), ("src/*.rs", "src/main.rs"), ("src/**/*main*.rs", "src/main.rs")]
    {
        let Ok(GlobOutput::Text(found)) = files.glob(&glob_args(pattern)) else {
            panic!("expected text");
        };
        assert!(found.contains(wanted));
    }
}

#[test]
fn grep_refuses_a_broken_pattern() {
    let mut files = sources();
    let Err(FunctionCallError::RespondToModel(message)) = files.grep(&grep_args("(")) else {
        panic!("expected a refusal");
    };
    assert!(message.starts_with("invalid regex: "));
}

#[test]
fn grep_can_ignore_case_and_stops_at_the_limit() {
    let mut files = Files::with("a.txt", "One\ntwo\nONE\none\n");
    let mut grep = grep_args("one");
    grep.case_sensitive = false;
    grep.limit = 2;
    assert_eq!(
        files.grep(&grep),
        Ok(GrepOutput::Text("/work/a.txt:1:One\n/work/a.txt:3:ONE".to_string()))
    );
    assert_eq!(
        grep_output(&no_filters(), GrepFound::Text(Vec::new())),
        GrepOutput::Text(String::new())
    );
}

#[test]
fn a_limit_of_zero_finds_nothing() {
    let mut files = Files::with("a.txt", "one\n");
    let mut glob = glob_args("*.txt");
    assert_eq!(files.glob(&glob), Ok(GlobOutput::Text("/work/a.txt".to_string())));
    glob.limit = 0;
    assert_eq!(files.glob(&glob), Ok(GlobOutput::Text(String::new())));
    glob.output_format = OutputFormat::Json;
    assert_eq!(files.glob(&glob), Ok(GlobOutput::Json(Vec::new())));

    let mut search = search_args("a");
    assert_eq!(files.search(&search), Ok(SearchOutput::Text("/work/a.txt".to_string())));
    search.limit = 0;
    assert_eq!(files.search(&search), Ok(SearchOutput::Text(String::new())));
    search.output_format = OutputFormat::Json;
    assert_eq!(files.search(&search), Ok(SearchOutput::Json(Vec::new())));

    let mut grep = grep_args("one");
    grep.limit = 0;
    assert_eq!(files.grep(&grep), Ok(GrepOutput::Text(String::new())));
    grep.output_format = OutputFormat::Json;
    assert_eq!(files.grep(&grep), Ok(GrepOutput::Json(Vec::new())));
}

#[test]
fn edit_write_and_delete_mutate_files() {
    let mut files = Files::default();
    let mut write = write_args("nested/sample.txt", "alpha beta alpha");
    write.create_parent_dirs = true;
    assert!(files.write(write).result.is_ok());

    files.read_lines("nested/sample.txt", 1, 1);
    let diff = files
        .edit(legacy("nested/sample.txt", "alpha", "omega", Some(2)))
        .expect("edit should apply");
    assert!(diff.contains("-alpha beta alpha"));
    assert!(diff.contains("+alpha beta omega"));
    assert_eq!(files.text("nested/sample.txt"), "alpha beta omega");

    let mut delete = delete_args("nested");
    delete.recursive = true;
    assert!(files.delete(delete).is_ok());
    assert!(files.texts.is_empty());
}

#[test]
fn write_and_delete_support_safety_options() {
    let mut files = Files::with("sample.txt", "alpha");

    let mut create = write_args("sample.txt", "omega");
    create.mode = WriteMode::CreateNew;
    assert_eq!(
        files.write(create).result,
        Err(respond(
            "refusing to overwrite existing file `/work/sample.txt` with mode=create_new"
        ))
    );

    let mut stale = write_args("sample.txt", "omega");
    stale.expected_hash = Some("sha1:stale".to_string());
    assert_eq!(
        files.write(stale).result,
        Err(respond(&format!(
            "expected_hash mismatch: expected sha1:stale, actual {}",
            content_hash("alpha")
        )))
    );

    let mut update = write_args("sample.txt", "omega");
    update.mode = WriteMode::UpdateExisting;
    update.expected_hash = Some(content_hash("alpha"));
    assert!(files.write(update).result.is_ok());
    assert_eq!(files.text("sample.txt"), "omega");

    let mut missing = write_args("other.txt", "omega");
    missing.mode = WriteMode::UpdateExisting;
    assert_eq!(
        files.write(missing).result,
        Err(respond(
            "refusing to create missing file `/work/other.txt` with mode=update_existing"
        ))
    );

    let mut dry_run = delete_args("sample.txt");
    dry_run.expected_type = Some(DeleteExpectedType::File);
    dry_run.dry_run = true;
    assert!(files.delete(dry_run).expect("dry run should answer").contains("would delete"));
    assert_eq!(files.text("sample.txt"), "omega");

    let mut wrong_type = delete_args("sample.txt");
    wrong_type.expected_type = Some(DeleteExpectedType::Dir);
    assert_eq!(
        files.delete(wrong_type),
        Err(respond(
            "refusing to delete `/work/sample.txt` because expected_type does not match"
        ))
    );
}

fn linked_file() -> Files {
    let mut files = Files::default();
    files.texts.insert("/outside/target.txt".to_string(), "secret".to_string());
    files.links.insert(full("link.txt"), "/outside/target.txt".to_string());
    files
}

#[test]
fn write_rejects_symlink_target_outside_writable_root() {
    let mut files = linked_file();
    let finish = files.write(write_args("link.txt", "changed"));
    let Err(FunctionCallError::RespondToModel(message)) = finish.result else {
        panic!("write through symlink should be denied");
    };
    assert!(message.contains("resolves to"));
    assert!(message.contains("/outside/target.txt"));
    assert_eq!(files.texts["/outside/target.txt"], "secret");
}

#[test]
fn write_rejects_missing_file_under_symlinked_parent() {
    let mut files = Files::default();
    files.links.insert(full("linked"), "/outside".to_string());
    let finish = files.write(write_args("linked/created.txt", "created"));
    let Err(FunctionCallError::RespondToModel(message)) = finish.result else {
        panic!("write under symlinked parent should be denied");
    };
    assert!(message.contains("resolves to"));
    assert!(message.contains("/outside/created.txt"));
    assert!(files.texts.is_empty());
    assert_eq!(resolve_existing_write_target(3, false, false), TargetStep::Unknown);
}

#[test]
fn delete_rejects_symlink_target_outside_writable_root() {
    let mut files = linked_file();
    let Err(FunctionCallError::RespondToModel(message)) = files.delete(delete_args("link.txt"))
    else {
        panic!("delete through symlink should be denied");
    };
    assert!(message.contains("resolves to"));
    assert_eq!(files.texts["/outside/target.txt"], "secret");
    assert!(files.links.contains_key(&full("link.txt")));
}

#[test]
fn write_outside_the_root_is_denied() {
    assert_eq!(
        ensure_write_allowed("/etc/passwd", false, Ok(None)),
        Err(respond("access denied: writing `/etc/passwd` is blocked by filesystem policy"))
    );
}

#[test]
fn a_write_needs_leave_for_the_path_and_its_target() {
    let target = |place: &str, writable: bool| Ok(Some((place.to_string(), writable)));
    assert_eq!(ensure_write_allowed("/work/a", true, target("/work/a", true)), Ok(()));
    assert_eq!(ensure_write_allowed("/work/a", true, Ok(None)), Ok(()));
    assert_eq!(
        ensure_write_allowed("/work/a", true, target("/outside/a", false)),
        Err(respond(
            "access denied: writing `/work/a` resolves to `/outside/a` which is blocked by filesystem policy"
        ))
    );
    assert_eq!(
        ensure_write_allowed("/work/a", false, target("/outside/a", false)),
        Err(respond("access denied: writing `/work/a` is blocked by filesystem policy"))
    );
    assert_eq!(ensure_write_allowed("/work/a", true, Err(respond("no"))), Err(respond("no")));
}

#[test]
fn refused_target_ends_an_edit_unchanged() {
    let (state, _) = start_edit(legacy("link.txt", "a", "b", None));
    let target = Some(("/outside/target.txt".to_string(), false));
    let denied = ensure_write_allowed("/work/link.txt", true, Ok(target));
    let (_, action) = edit_step("/work/link.txt", state, FileEvent::Access(denied));
    let FileAction::Finish(finish) = action else {
        panic!("the edit should end");
    };
    assert!(finish.result.is_err());
    assert_eq!(finish.record, FileRecord::Nothing);
    assert_eq!(finish.verb, None);
}

#[test]
fn edit_ops_apply_multiple_operation_types() {
    let mut files = Files::with(
        "sample.txt",
        "use beta;\nfn main() {\n    alpha();\n    beta();\n}\n",
    );
    files.read_lines("sample.txt", 1, 5);
    files
        .edit(ops(
            "sample.txt",
            EditApplyMode::Sequential,
            vec![
                EditOperation::InsertAfter {
                    anchor: "use beta;\n".to_string(),
                    text: "use omega;\n".to_string(),
                    occurrence: None,
                },
                replace("beta", "gamma", Some(2)),
                EditOperation::ReplaceRange {
                    start_line: 4,
                    end_line: 4,
                    new_text: "    omega();\n".to_string(),
                },
                EditOperation::DeleteText {
                    old_text: "    gamma();\n".to_string(),
                    occurrence: None,
                },
            ],
        ))
        .expect("edit should apply");
    assert_eq!(
        files.text("sample.txt"),
        "use beta;\nuse omega;\nfn main() {\n    omega();\n}\n"
    );
}

#[test]
fn edit_ops_snapshot_resolves_occurrences_against_original_text() {
    let mut files = Files::with(
        "sample.txt",
        "source: ExecCommandSource::Agent,\nsource: ExecCommandSource::Agent,\n",
    );
    files.read_lines("sample.txt", 1, 2);
    let old = "source: ExecCommandSource::Agent,";
    let new = "auto_review_approved: false,\nsource: ExecCommandSource::Agent,";
    let output = files
        .edit(ops(
            "sample.txt",
            EditApplyMode::Snapshot,
            vec![replace(old, new, Some(2)), replace(old, new, Some(1))],
        ))
        .expect("edit should apply");
    assert_eq!(
        files.text("sample.txt"),
        "auto_review_approved: false,\nsource: ExecCommandSource::Agent,\nauto_review_approved: false,\nsource: ExecCommandSource::Agent,\n"
    );
    assert!(output.contains("Matched ranges:"));
    assert!(output.contains("op 1: bytes"));
    assert!(output.contains("op 2: bytes"));
}

#[test]
fn edit_ops_replace_occurrences_replaces_selected_original_occurrences() {
    let mut files = Files::with("sample.txt", "alpha beta alpha beta alpha");
    files.read_lines("sample.txt", 1, 1);
    files
        .edit(ops(
            "sample.txt",
            EditApplyMode::Snapshot,
            vec![EditOperation::ReplaceOccurrences {
                old_text: "alpha".to_string(),
                new_text: "omega".to_string(),
                occurrences: vec![1, 3],
            }],
        ))
        .expect("edit should apply");
    assert_eq!(files.text("sample.txt"), "omega beta alpha beta omega");
}

#[test]
fn edit_ops_snapshot_rejects_overlapping_ranges_without_writing() {
    let mut files = Files::with("sample.txt", "abcdef");
    files.read_lines("sample.txt", 1, 1);
    let result = files.edit(ops(
        "sample.txt",
        EditApplyMode::Snapshot,
        vec![
            replace("abcde", "ABCDE", None),
            replace("f", "F", None),
            replace("cde", "CDE", None),
        ],
    ));
    assert_eq!(files.text("sample.txt"), "abcdef");
    assert_eq!(
        result,
        Err(respond(
            "op 3 overlaps op 1; no changes written.\nop 1: bytes 0..5\nop 3: bytes 2..5"
        ))
    );
}

#[test]
fn edit_ops_sequential_warns_when_old_text_is_reused() {
    let mut files = Files::with("sample.txt", "foo foo");
    files.read_lines("sample.txt", 1, 1);
    let output = files
        .edit(ops(
            "sample.txt",
            EditApplyMode::Sequential,
            vec![replace("foo", "barfoo", Some(1)), replace("foo", "baz", Some(1))],
        ))
        .expect("edit should apply");
    assert_eq!(files.text("sample.txt"), "barbaz foo");
    assert!(output.starts_with(
        "warning: op 2 occurrence resolved against modified buffer in sequential mode. Use apply_mode=\"snapshot\" for simultaneous replacement."
    ));
}

#[test]
fn edit_ops_are_atomic_on_failure() {
    let mut files = Files::with("sample.txt", "alpha\nbeta\n");
    let result = files.edit(ops(
        "sample.txt",
        EditApplyMode::Sequential,
        vec![
            replace("alpha", "omega", None),
            EditOperation::DeleteText { old_text: "missing".to_string(), occurrence: None },
        ],
    ));
    assert_eq!(result, Err(respond("op 2: old_text was not found")));
    assert_eq!(files.text("sample.txt"), "alpha\nbeta\n");
}

#[test]
fn edit_rejects_ambiguous_replacement() {
    let mut files = Files::with("sample.txt", "alpha beta alpha");
    assert_eq!(
        files.edit(legacy("sample.txt", "alpha", "omega", None)),
        Err(respond("old_text occurs 2 times; specify occurrence"))
    );
}

#[test]
fn edit_requires_observed_lines_and_fresh_hash() {
    let mut files = Files::with("sample.txt", "alpha\nbeta\ngamma\n");
    assert_eq!(
        files.edit(legacy("sample.txt", "beta", "omega", None)),
        Err(respond(
            "refusing to edit `/work/sample.txt` because the target lines have not been read or searched this turn"
        ))
    );

    files.read_lines("sample.txt", 1, 1);
    assert_eq!(
        files.edit(legacy("sample.txt", "beta", "omega", None)),
        Err(respond(
            "refusing to edit `/work/sample.txt` because lines 2 have not been read or searched this turn"
        ))
    );

    files.read_lines("sample.txt", 2, 2);
    files.put("sample.txt", "alpha\nBETA\ngamma\n");
    assert_eq!(
        files.edit(legacy("sample.txt", "BETA", "omega", None)),
        Err(respond(&format!(
            "refusing to edit `/work/sample.txt` because it changed since it was read or searched: observed {}, actual {}",
            content_hash("alpha\nbeta\ngamma\n"),
            content_hash("alpha\nBETA\ngamma\n")
        )))
    );

    files.read_lines("sample.txt", 2, 2);
    files
        .edit(legacy("sample.txt", "BETA", "omega", None))
        .expect("edit should apply");
    assert_eq!(files.text("sample.txt"), "alpha\nomega\ngamma\n");
}

#[test]
fn edit_preserves_observed_lines_when_hash_is_unchanged() {
    let mut files = Files::with("sample.txt", "alpha\nbeta\ngamma\n");
    files.read_lines("sample.txt", 1, 3);
    files.edit(legacy("sample.txt", "beta", "omega", None)).expect("edit should apply");
    files.edit(legacy("sample.txt", "gamma", "delta", None)).expect("edit should apply");
    assert_eq!(files.text("sample.txt"), "alpha\nomega\ndelta\n");
}

#[test]
fn edit_diff_lines_can_be_edited_again_without_reread() {
    let mut files = Files::with("sample.txt", "alpha\nbeta\ngamma\n");
    files.read_lines("sample.txt", 2, 2);
    files.edit(legacy("sample.txt", "beta", "omega", None)).expect("edit should apply");
    files.edit(legacy("sample.txt", "omega", "theta", None)).expect("edit should apply");
    assert_eq!(files.text("sample.txt"), "alpha\ntheta\ngamma\n");
}

#[test]
fn edit_observation_after_edit_still_rejects_external_changes() {
    let mut files = Files::with("sample.txt", "alpha\nbeta\ngamma\n");
    files.read_lines("sample.txt", 2, 2);
    files.edit(legacy("sample.txt", "beta", "omega", None)).expect("edit should apply");
    files.put("sample.txt", "alpha\nOMEGA\ngamma\n");
    assert_eq!(
        files.edit(legacy("sample.txt", "OMEGA", "theta", None)),
        Err(respond(&format!(
            "refusing to edit `/work/sample.txt` because it changed since it was read or searched: observed {}, actual {}",
            content_hash("alpha\nomega\ngamma\n"),
            content_hash("alpha\nOMEGA\ngamma\n")
        )))
    );
}

#[test]
fn write_observes_the_written_file_for_followup_edit() {
    let mut files = Files::default();
    let finish = files.write(write_args("sample.txt", "alpha\nbeta\ngamma\n"));
    assert!(finish.result.is_ok());
    files.edit(legacy("sample.txt", "gamma", "delta", None)).expect("edit should apply");
    assert_eq!(files.text("sample.txt"), "alpha\nbeta\ndelta\n");
}

#[test]
fn grep_observation_allows_matching_line_edit() {
    let mut files = Files::with("sample.txt", "alpha\nbeta\ngamma\n");
    files.grep(&grep_args("beta")).expect("grep should answer");
    files.edit(legacy("sample.txt", "beta", "omega", None)).expect("edit should apply");
    assert_eq!(files.text("sample.txt"), "alpha\nomega\ngamma\n");
}

#[test]
fn delete_rejects_directory_without_recursive() {
    let mut files = Files::default();
    files.dirs.insert(full("nested"));
    assert_eq!(
        files.delete(delete_args("nested")),
        Err(respond("refusing to delete directory without recursive=true"))
    );
}

#[test]
fn a_write_announces_what_changes() {
    let (state, _) = start_write(write_args("a.txt", "new\n"));
    let (state, _) = write_step("/work/a.txt", true, state, FileEvent::Access(Ok(())));
    let (state, action) = write_step("/work/a.txt", true, state, FileEvent::Present(Ok(true)));
    assert_eq!(action, FileAction::ReadText);
    let old = FileEvent::Text(Ok("old\n".to_string()));
    let (_, action) = write_step("/work/a.txt", true, state, old);
    let FileAction::Write { change: FileChange::Update { unified_diff }, content } = action else {
        panic!("an update should be announced");
    };
    assert_eq!(content, "new\n");
    assert!(unified_diff.contains("-old\n+new\n"));
}

#[test]
fn only_tools_that_change_files_are_mutating() {
    let handler = FileHandler;
    assert_eq!(handler.kind(), ToolKind::Function);
    assert!(handler.is_mutating("edit"));
    assert!(handler.is_mutating("write"));
    assert!(handler.is_mutating("delete"));
    assert!(!handler.is_mutating("read_file"));
    assert!(!handler.is_mutating("unknown"));
    assert_eq!(handler.tool("grep_file", true), Ok(FileTool::GrepFile));
    assert!(handler.tool("grep_file", false).is_err());
    assert!(handler.tool("unknown", true).is_err());
}
