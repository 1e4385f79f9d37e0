//! The course of the tools that search files: which root, path or file to look at next, and what to
//! answer in the end.
use vstd::prelude::*;
use vstd::string::*;

use crate::change::{text_output_with_warnings, warned};
use crate::error::FunctionCallError;
use crate::grep::{
    grep_structured_file, grep_text_file, law_listed_matches_keep_the_limit, line_hits,
    match_models, match_search, observes, text_search, FileLineObservation, GrepCollectOptions,
    GrepMatch,
};
use crate::outside::{lowercase, regex_build, regex_refusal, to_lowercase};
use crate::paths::{filter_warning, glob_filter_warning, PathFilters};
use crate::text::{join, joined, lines_of, owned, text_of, texts};
use crate::walk::{
    added, best, best_matches, glob_hits, glob_text_output, globbed, hit_paths, hits, is_excluded,
    keeps, read_denied, search_text_output, searched_file, shown_entry, visit_file, visit_glob,
    visit_search, GlobEntryType, GlobHit, GlobMatch, Hit, SearchMatch, Visit, Walk,
};

verus! {

/// How results are answered.
#[derive(Clone, Copy, Debug, PartialEq, Eq, Structural)]
pub enum OutputFormat {
    Text,
    Json,
}

impl Default for OutputFormat {
    fn default() -> (r: OutputFormat)
        ensures
            r == OutputFormat::Text,
    {
        OutputFormat::Text
    }
}

/// The arguments of a path search.
#[derive(Debug, PartialEq, Eq)]
pub struct SearchFileArgs {
    pub query: String,
    pub roots: Vec<String>,
    pub limit: usize,
    pub filters: PathFilters,
    pub output_format: OutputFormat,
}

/// What a path search answers.
#[derive(Debug, PartialEq, Eq)]
pub enum SearchOutput {
    Text(String),
    Json(Vec<SearchMatch>),
}

/// Where a path search stands.
#[derive(Debug, PartialEq, Eq)]
pub struct SearchState<P> {
    pub next_root: usize,
    pub walk: Walk<P>,
    pub matches: Vec<SearchMatch>,
}

/// What a path search was told.
#[derive(Debug, PartialEq, Eq)]
pub enum SearchEvent<P> {
    /// The root that it asked for.
    Root(P),
    /// What is at the path that it asked about.
    Visited(Visit<P>),
}

/// What a path search asks for.
#[derive(Debug, PartialEq, Eq)]
pub enum SearchAction<P> {
    /// The root of this number.
    Root(usize),
    /// What is at this path.
    Visit(P),
    /// Nothing more.
    Finish(Result<SearchOutput, FunctionCallError>),
}

/// Why a visit ends a search, if it does.
pub open spec fn visit_failure<P>(visit: Visit<P>) -> Option<Seq<char>> {
    match visit {
        Visit::Denied { path } => Some(read_denied(path@)),
        Visit::Directory { entry, listing } => if is_excluded(entry) {
            None
        } else {
            match listing->0 {
                Ok(_) => None,
                Err(message) => Some(message@),
            }
        },
        _ => None,
    }
}

/// The paths to visit after a visit.
pub open spec fn walked<P>(stack: Seq<P>, visit: Visit<P>) -> Seq<P> {
    match visit {
        Visit::Directory { entry, listing } => if is_excluded(entry) {
            stack
        } else {
            match listing->0 {
                Ok(paths) => stack + paths@,
                Err(_) => stack,
            }
        },
        _ => stack,
    }
}

/// What a visit finds for a path search.
pub open spec fn newly_found<P>(visit: Visit<P>, query: Seq<char>, filters: PathFilters) -> Option<
    Hit,
> {
    match visit {
        Visit::File { entry } => searched_file(entry, query, filters),
        _ => None,
    }
}

/// Whether a visit finds the last thing that the limit allows, or one more than it allows.
pub open spec fn fills<H>(found: Seq<H>, hit: Option<H>, limit: usize) -> bool {
    hit is Some && found.len() + 1 >= limit
}

/// Whether `output` is the answer for the found paths.
pub open spec fn answers_search(args: SearchFileArgs, found: Seq<Hit>, output: SearchOutput) -> bool {
    match args.output_format {
        OutputFormat::Text => output matches SearchOutput::Text(text) && text@ == warned(
            filter_warning(args.filters.included@, args.filters.excluded@),
            joined(hit_paths(best(found, args.limit)), "\n"@),
        ),
        OutputFormat::Json => output matches SearchOutput::Json(matches) && hits(matches@) == best(
            found,
            args.limit,
        ),
    }
}

/// What a path search asks for when nothing is open: the next path, else the next root unless
/// enough is found, else nothing.
pub open spec fn search_resumes<P>(
    args: SearchFileArgs,
    root_count: usize,
    stack: (Seq<P>, Seq<P>),
    next_root: (usize, usize),
    found: Seq<Hit>,
    action: SearchAction<P>,
) -> bool {
    if stack.0.len() > 0 {
        &&& action == SearchAction::Visit(stack.0.last())
        &&& stack.1 == stack.0.drop_last()
        &&& next_root.1 == next_root.0
    } else if found.len() >= args.limit || next_root.0 >= root_count {
        &&& action matches SearchAction::Finish(Ok(output))
        &&& answers_search(args, found, output)
    } else {
        &&& action == SearchAction::<P>::Root(next_root.0)
        &&& stack.1 == stack.0
        &&& next_root.1 == next_root.0 + 1
    }
}

fn search_output(args: &SearchFileArgs, matches: &[SearchMatch]) -> (r: SearchOutput)
    ensures
        answers_search(*args, hits(matches@), r),
{
    let kept = best_matches(matches, args.limit);
    match args.output_format {
        OutputFormat::Text => {
            let warning = glob_filter_warning(
                args.filters.included.as_slice(),
                args.filters.excluded.as_slice(),
            );
            SearchOutput::Text(search_text_output(kept.as_slice(), warning))
        },
        OutputFormat::Json => SearchOutput::Json(kept),
    }
}

fn search_on<P>(args: &SearchFileArgs, root_count: usize, state: &mut SearchState<P>) -> (r:
    SearchAction<P>)
    ensures
        search_resumes(
            *args,
            root_count,
            (old(state).walk.stack@, final(state).walk.stack@),
            (old(state).next_root, final(state).next_root),
            hits(old(state).matches@),
            r,
        ),
        final(state).matches@ == old(state).matches@,
{
    assert(hits(state.matches@).len() == state.matches@.len());
    match state.walk.next_path() {
        Some(path) => SearchAction::Visit(path),
        None => if state.matches.len() >= args.limit || state.next_root >= root_count {
            SearchAction::Finish(Ok(search_output(args, state.matches.as_slice())))
        } else {
            let root: usize = state.next_root;
            state.next_root = root + 1;
            SearchAction::Root(root)
        },
    }
}

/// The first thing that a path search asks for: the first root.
pub fn start_search<P>() -> (r: (SearchState<P>, SearchAction<P>))
    ensures
        r.0.next_root == 1,
        r.0.walk.stack@ == Seq::<P>::empty(),
        r.0.matches@.len() == 0,
        r.1 == SearchAction::<P>::Root(0),
{
    (
        SearchState { next_root: 1, walk: Walk { stack: Vec::new() }, matches: Vec::new() },
        SearchAction::Root(0),
    )
}

/// What a path search over `root_count` roots asks for next.
pub fn search_step<P>(
    args: &SearchFileArgs,
    root_count: usize,
    state: &mut SearchState<P>,
    event: SearchEvent<P>,
) -> (r: SearchAction<P>)
    requires
        event matches SearchEvent::Visited(visit) ==> visit.complete(),
    ensures
        old(state).matches@.len() <= args.limit ==> final(state).matches@.len() <= args.limit,
        match event {
            SearchEvent::Root(root) => {
                &&& search_resumes(
                    *args,
                    root_count,
                    (seq![root], final(state).walk.stack@),
                    (old(state).next_root, final(state).next_root),
                    hits(old(state).matches@),
                    r,
                )
                &&& hits(final(state).matches@) == hits(old(state).matches@)
            },
            SearchEvent::Visited(visit) => match visit_failure(visit) {
                Some(message) => r matches SearchAction::Finish(Err(error)) && error.says(message),
                None => {
                    let stack = walked(old(state).walk.stack@, visit);
                    let before = hits(old(state).matches@);
                    let hit = newly_found(visit, lowercase(args.query@), args.filters);
                    let after = added(before, hit, args.limit);
                    &&& hits(final(state).matches@) == after
                    &&& if fills(before, hit, args.limit) {
                        &&& r matches SearchAction::Finish(Ok(output))
                        &&& answers_search(*args, after, output)
                    } else {
                        search_resumes(
                            *args,
                            root_count,
                            (stack, final(state).walk.stack@),
                            (old(state).next_root, final(state).next_root),
                            after,
                            r,
                        )
                    }
                },
            },
        },
{
    match event {
        SearchEvent::Root(root) => {
            state.walk = Walk::new(root);
            search_on(args, root_count, state)
        },
        SearchEvent::Visited(visit) => {
            let query = to_lowercase(args.query.as_str());
            assert(hits(state.matches@).len() == state.matches@.len());
            let going = visit_search(
                &mut state.walk,
                visit,
                query.as_str(),
                &args.filters,
                args.limit,
                &mut state.matches,
            );
            assert(hits(state.matches@).len() == state.matches@.len());
            match going {
                Ok(true) => search_on(args, root_count, state),
                Ok(false) => SearchAction::Finish(
                    Ok(search_output(args, state.matches.as_slice())),
                ),
                Err(error) => SearchAction::Finish(Err(error)),
            }
        },
    }
}

/// The arguments of a glob search.
#[derive(Debug, PartialEq, Eq)]
pub struct GlobFileArgs {
    pub pattern: String,
    pub root: Option<String>,
    pub limit: usize,
    pub relative_only: bool,
    pub entry_type: GlobEntryType,
    pub output_format: OutputFormat,
}

/// What a glob search answers.
#[derive(Debug, PartialEq, Eq)]
pub enum GlobOutput {
    Text(String),
    Json(Vec<GlobMatch>),
}

/// Where a glob search stands.
#[derive(Debug, PartialEq, Eq)]
pub struct GlobState<P> {
    pub walk: Walk<P>,
    pub matches: Vec<GlobMatch>,
}

/// What a glob search asks for.
#[derive(Debug, PartialEq, Eq)]
pub enum GlobAction<P> {
    /// What is at this path.
    Visit(P),
    /// Nothing more.
    Finish(Result<GlobOutput, FunctionCallError>),
}

/// Whether `output` is the answer for the matched entries.
pub open spec fn answers_glob(args: GlobFileArgs, found: Seq<GlobHit>, output: GlobOutput) -> bool {
    match args.output_format {
        OutputFormat::Text => output matches GlobOutput::Text(text) && text@ == joined(
            Seq::new(found.len(), |i: int| shown_entry(found[i], args.relative_only)),
            "\n"@,
        ),
        OutputFormat::Json => output matches GlobOutput::Json(matches) && glob_hits(matches@)
            == found,
    }
}

/// What a glob search asks for when nothing is open: the next path, else nothing.
pub open spec fn glob_resumes<P>(
    args: GlobFileArgs,
    stack: (Seq<P>, Seq<P>),
    found: Seq<GlobHit>,
    action: GlobAction<P>,
) -> bool {
    if stack.0.len() > 0 {
        &&& action == GlobAction::Visit(stack.0.last())
        &&& stack.1 == stack.0.drop_last()
    } else {
        &&& action matches GlobAction::Finish(Ok(output))
        &&& answers_glob(args, found, output)
    }
}

/// What a visit finds for a glob search.
pub open spec fn newly_globbed<P>(
    visit: Visit<P>,
    pattern: Seq<char>,
    entry_type: GlobEntryType,
) -> Option<GlobHit> {
    match visit {
        Visit::File { entry } => globbed(entry, GlobEntryType::File, pattern, entry_type),
        Visit::Directory { entry, .. } => globbed(entry, GlobEntryType::Dir, pattern, entry_type),
        _ => None,
    }
}

fn copy_entry(entry: &GlobMatch) -> (r: GlobMatch)
    ensures
        r.path@ == entry.path@,
        text_of(r.relative_path) == text_of(entry.relative_path),
        r.entry_type == entry.entry_type,
{
    let relative_path = match &entry.relative_path {
        Some(text) => Some(owned(text.as_str())),
        None => None,
    };
    GlobMatch { path: owned(entry.path.as_str()), relative_path, entry_type: entry.entry_type }
}

fn glob_output(args: &GlobFileArgs, matches: &[GlobMatch]) -> (r: GlobOutput)
    ensures
        answers_glob(*args, glob_hits(matches@), r),
{
    match args.output_format {
        OutputFormat::Text => {
            let text = glob_text_output(matches, args.relative_only);
            assert(Seq::new(
                matches@.len(),
                |i: int| shown_entry(glob_hits(matches@)[i], args.relative_only),
            ) =~= Seq::new(
                glob_hits(matches@).len(),
                |i: int| shown_entry(glob_hits(matches@)[i], args.relative_only),
            ));
            GlobOutput::Text(text)
        },
        OutputFormat::Json => {
            let mut out: Vec<GlobMatch> = Vec::new();
            let mut i: usize = 0;
            while i < matches.len()
                invariant
                    i <= matches@.len(),
                    out@.len() == i,
                    forall|j: int|
                        0 <= j < i ==> #[trigger] glob_hits(out@)[j] == glob_hits(matches@)[j],
                decreases matches@.len() - i,
            {
                let ghost before = out@;
                out.push(copy_entry(&matches[i]));
                assert forall|j: int| 0 <= j < i + 1 implies #[trigger] glob_hits(out@)[j]
                    == glob_hits(matches@)[j] by {
                    if j < i {
                        assert(glob_hits(out@)[j] == glob_hits(before)[j]);
                    }
                }
                i += 1;
            }
            assert(glob_hits(out@) =~= glob_hits(matches@));
            GlobOutput::Json(out)
        },
    }
}

fn glob_on<P>(args: &GlobFileArgs, state: &mut GlobState<P>) -> (r: GlobAction<P>)
    ensures
        glob_resumes(
            *args,
            (old(state).walk.stack@, final(state).walk.stack@),
            glob_hits(old(state).matches@),
            r,
        ),
        final(state).matches@ == old(state).matches@,
{
    match state.walk.next_path() {
        Some(path) => GlobAction::Visit(path),
        None => GlobAction::Finish(Ok(glob_output(args, state.matches.as_slice()))),
    }
}

/// The first thing that a glob search asks for: what is at its root.
pub fn start_glob<P>(root: P) -> (r: (GlobState<P>, GlobAction<P>))
    ensures
        r.0.walk.stack@ == Seq::<P>::empty(),
        r.0.matches@.len() == 0,
        r.1 == GlobAction::Visit(root),
{
    (GlobState { walk: Walk { stack: Vec::new() }, matches: Vec::new() }, GlobAction::Visit(root))
}

/// What a glob search asks for next.
pub fn glob_step<P>(args: &GlobFileArgs, state: &mut GlobState<P>, visit: Visit<P>) -> (r: GlobAction<
    P,
>)
    requires
        visit.complete(),
    ensures
        old(state).matches@.len() <= args.limit ==> final(state).matches@.len() <= args.limit,
        match visit_failure(visit) {
            Some(message) => r matches GlobAction::Finish(Err(error)) && error.says(message),
            None => {
                let stack = walked(old(state).walk.stack@, visit);
                let before = glob_hits(old(state).matches@);
                let hit = newly_globbed(visit, args.pattern@, args.entry_type);
                let after = added(before, hit, args.limit);
                &&& glob_hits(final(state).matches@) == after
                &&& if fills(before, hit, args.limit) {
                    &&& r matches GlobAction::Finish(Ok(output))
                    &&& answers_glob(*args, after, output)
                } else {
                    glob_resumes(*args, (stack, final(state).walk.stack@), after, r)
                }
            },
        },
{
    assert(glob_hits(state.matches@).len() == state.matches@.len());
    let going = visit_glob(
        &mut state.walk,
        visit,
        args.pattern.as_str(),
        args.entry_type,
        args.limit,
        &mut state.matches,
    );
    assert(glob_hits(state.matches@).len() == state.matches@.len());
    match going {
        Ok(true) => glob_on(args, state),
        Ok(false) => GlobAction::Finish(Ok(glob_output(args, state.matches.as_slice()))),
        Err(error) => GlobAction::Finish(Err(error)),
    }
}

/// The arguments of a search in files.
#[derive(Debug, PartialEq, Eq)]
pub struct GrepFileArgs {
    pub pattern: String,
    pub roots: Vec<String>,
    pub filters: PathFilters,
    pub case_sensitive: bool,
    pub limit: usize,
    pub context: usize,
    pub output_format: OutputFormat,
}

/// What a search in files found so far, in the form in which it is answered.
#[derive(Debug, PartialEq, Eq)]
pub enum GrepFound {
    Text(Vec<String>),
    Structured(Vec<GrepMatch>),
}

/// How much was found.
pub open spec fn found_count(found: GrepFound) -> nat {
    match found {
        GrepFound::Text(shown) => shown@.len(),
        GrepFound::Structured(matches) => matches@.len(),
    }
}

/// What a search in files answers.
#[derive(Debug, PartialEq, Eq)]
pub enum GrepOutput {
    Text(String),
    Json(Vec<GrepMatch>),
}

/// Where a search in files stands.
#[derive(Debug, PartialEq, Eq)]
pub struct GrepState<P> {
    pub options: GrepCollectOptions,
    pub next_root: usize,
    pub walk: Walk<P>,
    pub files: Vec<P>,
    pub found: GrepFound,
    pub observations: Vec<FileLineObservation<P>>,
}

/// What a search in files was told.
#[derive(Debug, PartialEq, Eq)]
pub enum GrepEvent<P> {
    /// The root that it asked for.
    Root(P),
    /// What is at the path that it asked about.
    Visited { path: P, visit: Visit<P> },
    /// The content of the file that it asked for, if it could be read.
    Read { path: P, shown: String, text: Option<String> },
}

/// What a search in files asks for.
#[derive(Debug, PartialEq, Eq)]
pub enum GrepAction<P> {
    /// The root of this number.
    Root(usize),
    /// What is at this path.
    Visit(P),
    /// The content of this file.
    Read(P),
    /// Nothing more.
    Finish(Result<(), FunctionCallError>),
}

/// The message that a pattern is no regex.
pub open spec fn invalid_regex(message: Seq<char>) -> Seq<char> {
    "invalid regex: "@ + message
}

/// A search in files that has not begun, and the first thing that it asks for, or the refusal of a
/// pattern that is no regex.
pub fn start_grep<P>(args: &GrepFileArgs) -> (r: Result<
    (GrepState<P>, GrepAction<P>),
    FunctionCallError,
>)
    ensures
        match regex_refusal(args.pattern@, !args.case_sensitive) {
            Some(message) => r matches Err(error) && error.says(invalid_regex(message)),
            None => {
                &&& r matches Ok((state, action))
                &&& state.options.pattern@ == args.pattern@
                &&& state.options.case_insensitive == !args.case_sensitive
                &&& state.options.context == args.context
                &&& state.options.limit == args.limit
                &&& state.next_root == 1
                &&& state.walk.stack@.len() == 0
                &&& state.files@.len() == 0
                &&& match args.output_format {
                    OutputFormat::Text => state.found is Text,
                    OutputFormat::Json => state.found is Structured,
                }
                &&& found_count(state.found) == 0
                &&& state.observations@.len() == 0
                &&& action == GrepAction::<P>::Root(0)
            },
        },
{
    match regex_build(args.pattern.as_str(), !args.case_sensitive) {
        Ok(_) => {},
        Err(error) => {
            let mut message = owned("invalid regex: ");
            message.append(error.as_str());
            return Err(FunctionCallError::RespondToModel(message));
        },
    }
    let options = GrepCollectOptions {
        pattern: owned(args.pattern.as_str()),
        case_insensitive: !args.case_sensitive,
        context: args.context,
        limit: args.limit,
    };
    let found = match args.output_format {
        OutputFormat::Text => GrepFound::Text(Vec::new()),
        OutputFormat::Json => GrepFound::Structured(Vec::new()),
    };
    let state = GrepState {
        options,
        next_root: 1,
        walk: Walk { stack: Vec::new() },
        files: Vec::new(),
        found,
        observations: Vec::new(),
    };
    Ok((state, GrepAction::Root(0)))
}

/// What a search in files asks for when nothing is open: the next path, else the next file, else the
/// next root unless enough is found, else nothing.
pub open spec fn grep_resumes<P>(
    root_count: usize,
    stack: (Seq<P>, Seq<P>),
    files: (Seq<P>, Seq<P>),
    next_root: (usize, usize),
    found: nat,
    limit: usize,
    action: GrepAction<P>,
) -> bool {
    if stack.0.len() > 0 {
        &&& action == GrepAction::Visit(stack.0.last())
        &&& stack.1 == stack.0.drop_last()
        &&& files.1 == files.0
        &&& next_root.1 == next_root.0
    } else {
        &&& stack.1 == stack.0
        &&& if files.0.len() > 0 {
            &&& action == GrepAction::Read(files.0[0])
            &&& files.1 == files.0.skip(1)
            &&& next_root.1 == next_root.0
        } else {
            &&& files.1 == files.0
            &&& if found >= limit || next_root.0 >= root_count {
                action == GrepAction::<P>::Finish(Ok(()))
            } else {
                &&& action == GrepAction::<P>::Root(next_root.0)
                &&& next_root.1 == next_root.0 + 1
            }
        }
    }
}

fn count_found(found: &GrepFound) -> (r: usize)
    ensures
        r == found_count(*found),
{
    match found {
        GrepFound::Text(shown) => shown.len(),
        GrepFound::Structured(matches) => matches.len(),
    }
}

fn grep_on<P>(root_count: usize, state: &mut GrepState<P>) -> (r: GrepAction<P>)
    ensures
        grep_resumes(
            root_count,
            (old(state).walk.stack@, final(state).walk.stack@),
            (old(state).files@, final(state).files@),
            (old(state).next_root, final(state).next_root),
            found_count(old(state).found),
            old(state).options.limit,
            r,
        ),
        final(state).found == old(state).found,
        final(state).observations == old(state).observations,
        final(state).options == old(state).options,
{
    match state.walk.next_path() {
        Some(path) => GrepAction::Visit(path),
        None => if state.files.len() > 0 {
            let ghost before = state.files@;
            let path = state.files.remove(0);
            assert(state.files@ =~= before.skip(1));
            GrepAction::Read(path)
        } else if count_found(&state.found) >= state.options.limit || state.next_root
            >= root_count {
            GrepAction::Finish(Ok(()))
        } else {
            let root: usize = state.next_root;
            state.next_root = root + 1;
            GrepAction::Root(root)
        },
    }
}

/// Whether a search in a file goes over the limit.
pub open spec fn grep_full(
    options: GrepCollectOptions,
    found: GrepFound,
    shown: Seq<char>,
    text: Seq<char>,
) -> bool {
    let all = lines_of(text);
    let line_matches = line_hits(options.pattern@, options.case_insensitive, all);
    match found {
        GrepFound::Text(before) => text_search(
            texts(before@),
            shown,
            all,
            line_matches,
            options.context as int,
            options.limit as int,
            all.len(),
        ).full,
        GrepFound::Structured(before) => match_search(
            match_models(before@),
            shown,
            all,
            line_matches,
            options.context as int,
            options.limit as int,
            all.len(),
        ).full,
    }
}

/// What the content of a file adds to what was found and observed.
pub open spec fn grep_read<P>(
    options: GrepCollectOptions,
    found: (GrepFound, GrepFound),
    observations: (Seq<FileLineObservation<P>>, Seq<FileLineObservation<P>>),
    path: P,
    shown: Seq<char>,
    text: Seq<char>,
) -> bool {
    let all = lines_of(text);
    let line_matches = line_hits(options.pattern@, options.case_insensitive, all);
    match found.0 {
        GrepFound::Text(before) => {
            let result = text_search(
                texts(before@),
                shown,
                all,
                line_matches,
                options.context as int,
                options.limit as int,
                all.len(),
            );
            &&& found.1 matches GrepFound::Text(after)
            &&& texts(after@) == result.matches
            &&& observes(observations.0, observations.1, path, text, result.observed)
        },
        GrepFound::Structured(before) => {
            let result = match_search(
                match_models(before@),
                shown,
                all,
                line_matches,
                options.context as int,
                options.limit as int,
                all.len(),
            );
            &&& found.1 matches GrepFound::Structured(after)
            &&& match_models(after@) == result.matches
            &&& observes(observations.0, observations.1, path, text, result.observed)
        },
    }
}

proof fn lemma_read_keeps_the_limit(
    options: GrepCollectOptions,
    before: GrepFound,
    after: GrepFound,
    shown: Seq<char>,
    text: Seq<char>,
)
    ensures
        ({
            let all = lines_of(text);
            &&& before matches GrepFound::Structured(earlier)
            &&& after matches GrepFound::Structured(later)
            &&& earlier@.len() <= options.limit
            &&& match_models(later@) == match_search(
                match_models(earlier@),
                shown,
                all,
                line_hits(options.pattern@, options.case_insensitive, all),
                options.context as int,
                options.limit as int,
                all.len(),
            ).matches
        }) ==> found_count(after) <= options.limit,
{
    if let GrepFound::Structured(earlier) = before {
        let all = lines_of(text);
        assert(match_models(earlier@).len() == earlier@.len());
        if let GrepFound::Structured(later) = after {
            assert(match_models(later@).len() == later@.len());
        }
        if earlier@.len() <= options.limit {
            law_listed_matches_keep_the_limit(
                match_models(earlier@),
                shown,
                all,
                line_hits(options.pattern@, options.case_insensitive, all),
                options.context as int,
                options.limit as int,
                all.len(),
            );
        }
    }
}

fn search_text<P>(
    options: &GrepCollectOptions,
    found: &mut GrepFound,
    observations: &mut Vec<FileLineObservation<P>>,
    path: P,
    shown: &str,
    text: &str,
) -> (r: bool)
    ensures
        r == grep_full(*options, *old(found), shown@, text@),
        grep_read(
            *options,
            (*old(found), *final(found)),
            (old(observations)@, final(observations)@),
            path,
            shown@,
            text@,
        ),
{
    match found {
        GrepFound::Text(matches) => grep_text_file(
            path,
            shown,
            text,
            options,
            matches,
            observations,
        ),
        GrepFound::Structured(matches) => grep_structured_file(
            path,
            shown,
            text,
            options,
            matches,
            observations,
        ),
    }
}

/// The file at a path, if the filters keep it.
pub open spec fn newly_collected<P>(path: P, visit: Visit<P>, filters: PathFilters) -> Option<P> {
    match visit {
        Visit::File { entry } => if keeps(entry, filters) {
            Some(path)
        } else {
            None
        },
        _ => None,
    }
}

/// What a search in files over `root_count` roots asks for next. It reads the files of a root after
/// it has walked all of it.
pub fn grep_step<P>(
    filters: &PathFilters,
    root_count: usize,
    state: &mut GrepState<P>,
    event: GrepEvent<P>,
) -> (r: GrepAction<P>)
    requires
        event matches GrepEvent::Visited { visit, .. } ==> visit.complete(),
    ensures
        final(state).options == old(state).options,
        old(state).found is Structured && found_count(old(state).found) <= old(state).options.limit
            ==> found_count(final(state).found) <= old(state).options.limit,
        match event {
            GrepEvent::Root(root) => {
                &&& final(state).found == old(state).found
                &&& final(state).observations == old(state).observations
                &&& grep_resumes(
                    root_count,
                    (seq![root], final(state).walk.stack@),
                    (old(state).files@, final(state).files@),
                    (old(state).next_root, final(state).next_root),
                    found_count(old(state).found),
                    old(state).options.limit,
                    r,
                )
            },
            GrepEvent::Visited { path, visit } => {
                &&& final(state).found == old(state).found
                &&& final(state).observations == old(state).observations
                &&& match visit_failure(visit) {
                    Some(message) => r matches GrepAction::Finish(Err(error)) && error.says(message),
                    None => {
                        let file = newly_collected(path, visit, *filters);
                        let stack = if fills(old(state).files@, file, usize::MAX) {
                            Seq::empty()
                        } else {
                            walked(old(state).walk.stack@, visit)
                        };
                        grep_resumes(
                            root_count,
                            (stack, final(state).walk.stack@),
                            (added(old(state).files@, file, usize::MAX), final(state).files@),
                            (old(state).next_root, final(state).next_root),
                            found_count(old(state).found),
                            old(state).options.limit,
                            r,
                        )
                    },
                }
            },
            GrepEvent::Read { path, shown, text } => match text {
                Some(content) => {
                    &&& grep_read(
                        old(state).options,
                        (old(state).found, final(state).found),
                        (old(state).observations@, final(state).observations@),
                        path,
                        shown@,
                        content@,
                    )
                    &&& if grep_full(old(state).options, old(state).found, shown@, content@) {
                        r == GrepAction::<P>::Finish(Ok(()))
                    } else {
                        grep_resumes(
                            root_count,
                            (old(state).walk.stack@, final(state).walk.stack@),
                            (old(state).files@, final(state).files@),
                            (old(state).next_root, final(state).next_root),
                            found_count(final(state).found),
                            old(state).options.limit,
                            r,
                        )
                    }
                },
                None => {
                    &&& final(state).found == old(state).found
                    &&& final(state).observations == old(state).observations
                    &&& grep_resumes(
                        root_count,
                        (old(state).walk.stack@, final(state).walk.stack@),
                        (old(state).files@, final(state).files@),
                        (old(state).next_root, final(state).next_root),
                        found_count(old(state).found),
                        old(state).options.limit,
                        r,
                    )
                },
            },
        },
{
    match event {
        GrepEvent::Root(root) => {
            state.walk = Walk::new(root);
            grep_on(root_count, state)
        },
        GrepEvent::Visited { path, visit } => {
            match visit_file(
                &mut state.walk,
                path,
                visit,
                filters,
                usize::MAX,
                &mut state.files,
            ) {
                Ok(true) => grep_on(root_count, state),
                Ok(false) => {
                    state.walk = Walk { stack: Vec::new() };
                    grep_on(root_count, state)
                },
                Err(error) => GrepAction::Finish(Err(error)),
            }
        },
        GrepEvent::Read { path, shown, text } => match text {
            Some(content) => {
                let ghost earlier = state.found;
                let full = search_text(
                    &state.options,
                    &mut state.found,
                    &mut state.observations,
                    path,
                    shown.as_str(),
                    content.as_str(),
                );
                proof {
                    lemma_read_keeps_the_limit(
                        state.options,
                        earlier,
                        state.found,
                        shown@,
                        content@,
                    );
                }
                if full {
                    GrepAction::Finish(Ok(()))
                } else {
                    grep_on(root_count, state)
                }
            },
            None => grep_on(root_count, state),
        },
    }
}

/// What a finished search in files answers: the shown lines behind a warning if there is one, or the
/// matches.
pub fn grep_output(filters: &PathFilters, found: GrepFound) -> (r: GrepOutput)
    ensures
        match found {
            GrepFound::Text(shown) => r matches GrepOutput::Text(text) && text@ == warned(
                filter_warning(filters.included@, filters.excluded@),
                joined(texts(shown@), "\n"@),
            ),
            GrepFound::Structured(matches) => r matches GrepOutput::Json(listed) && listed
                == matches,
        },
{
    match found {
        GrepFound::Text(shown) => {
            let warning = glob_filter_warning(
                filters.included.as_slice(),
                filters.excluded.as_slice(),
            );
            GrepOutput::Text(text_output_with_warnings(warning, join(shown.as_slice(), "\n")))
        },
        GrepFound::Structured(matches) => GrepOutput::Json(matches),
    }
}

} // verus!
