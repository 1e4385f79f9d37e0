//! Walking directories: which paths to visit, and what to keep of them. The caller looks at the
//! paths; what it sees comes in as plain values.
use vstd::prelude::*;
use vstd::string::*;

use crate::change::{text_output_with_warnings, warned};
use crate::error::FunctionCallError;
use crate::order::{key_le, lemma_sorted_keys, sort_keys, sorted_keys, Key};
use crate::paths::{
    allowed, excluded_name, fuzzy_score, is_default_excluded_dir, path_allowed, path_matches,
    path_matches_glob, score_of, PathFilters,
};
use crate::text::{copy_text, join, joined, owned, slice_of, text_of, texts};

verus! {

/// The paths that are still to be visited; the last one comes next.
#[derive(Debug, PartialEq, Eq)]
pub struct Walk<P> {
    pub stack: Vec<P>,
}

/// How a path is shown: as a whole, relative to the root of the walk, and its last part.
#[derive(Debug, PartialEq, Eq)]
pub struct Entry {
    pub path: String,
    pub relative_path: Option<String>,
    pub name: Option<String>,
}

/// What was seen at a path.
#[derive(Debug, PartialEq, Eq)]
pub enum Visit<P> {
    /// Reading it is not allowed.
    Denied { path: String },
    /// There is nothing, or it cannot be looked at.
    Missing,
    /// A directory. It is listed unless it is one that no search goes into.
    Directory { entry: Entry, listing: Option<Result<Vec<P>, String>> },
    /// Anything else.
    File { entry: Entry },
}

impl<P> Visit<P> {
    /// Whether a directory that a search goes into comes with its listing.
    pub open spec fn complete(self) -> bool {
        self matches Visit::Directory { entry, listing } ==> (is_excluded(entry) || listing is Some)
    }
}

/// Whether no search goes into this directory.
pub open spec fn is_excluded(entry: Entry) -> bool {
    text_of(entry.name) matches Some(name) && excluded_name(name)
}

/// The message that a path must not be read.
pub open spec fn read_denied(path: Seq<char>) -> Seq<char> {
    "access denied: reading `"@ + path + "` is blocked by filesystem deny_read policy"@
}

fn read_denied_error(path: &str) -> (r: FunctionCallError)
    ensures
        r.says(read_denied(path@)),
{
    let mut message = owned("access denied: reading `");
    message.append(path);
    message.append("` is blocked by filesystem deny_read policy");
    FunctionCallError::RespondToModel(message)
}

/// Refuses a path that must not be read.
pub fn ensure_read_allowed(path: &str, denied: bool) -> (r: Result<(), FunctionCallError>)
    ensures
        if denied {
            r matches Err(error) && error.says(read_denied(path@))
        } else {
            r is Ok
        },
{
    if denied {
        return Err(read_denied_error(path));
    }
    Ok(())
}

/// The roots of a search: the given ones, or the current directory.
pub fn roots_or_cwd<P>(cwd: P, roots: Vec<P>) -> (r: Vec<P>)
    ensures
        r@ == if roots@.len() == 0 {
            seq![cwd]
        } else {
            roots@
        },
{
    if roots.len() == 0 {
        let mut out: Vec<P> = Vec::new();
        out.push(cwd);
        assert(out@ =~= seq![cwd]);
        out
    } else {
        roots
    }
}

impl<P> Walk<P> {
    /// A walk that begins at `root`.
    pub fn new(root: P) -> (r: Walk<P>)
        ensures
            r.stack@ == seq![root],
    {
        let mut stack: Vec<P> = Vec::new();
        stack.push(root);
        assert(stack@ =~= seq![root]);
        Walk { stack }
    }

    /// The next path to visit.
    pub fn next_path(&mut self) -> (r: Option<P>)
        ensures
            if old(self).stack@.len() == 0 {
                r is None && final(self).stack@ == old(self).stack@
            } else {
                r == Some(old(self).stack@.last()) && final(self).stack@
                    == old(self).stack@.drop_last()
            },
    {
        self.stack.pop()
    }
}

/// The text of the optional strings of an entry.
fn relative_of(entry: &Entry) -> (r: Option<&str>)
    ensures
        slice_of(r) == text_of(entry.relative_path),
{
    match &entry.relative_path {
        Some(text) => Some(text.as_str()),
        None => None,
    }
}

fn name_of(entry: &Entry) -> (r: Option<&str>)
    ensures
        slice_of(r) == text_of(entry.name),
{
    match &entry.name {
        Some(text) => Some(text.as_str()),
        None => None,
    }
}

/// Whether the filters keep a file.
pub open spec fn keeps(entry: Entry, filters: PathFilters) -> bool {
    allowed(entry.path@, text_of(entry.relative_path), text_of(entry.name), filters)
}

/// Goes on into a directory: its entries are visited next. A failed listing ends the walk.
fn enter<P>(
    walk: &mut Walk<P>,
    entry: &Entry,
    listing: Option<Result<Vec<P>, String>>,
) -> (r: Result<(), FunctionCallError>)
    requires
        is_excluded(*entry) || listing is Some,
    ensures
        if is_excluded(*entry) {
            r is Ok && final(walk).stack@ == old(walk).stack@
        } else {
            match listing->0 {
                Ok(paths) => r is Ok && final(walk).stack@ == old(walk).stack@ + paths@,
                Err(message) => {
                    &&& r matches Err(error)
                    &&& error.says(message@)
                    &&& final(walk).stack@ == old(walk).stack@
                },
            }
        },
{
    if is_default_excluded_dir(name_of(entry)) {
        return Ok(());
    }
    match listing {
        Some(Ok(paths)) => {
            let mut paths = paths;
            walk.stack.append(&mut paths);
            Ok(())
        },
        Some(Err(message)) => Err(FunctionCallError::RespondToModel(message)),
        None => Ok(()),
    }
}

/// What visiting a directory does to the walk, and whether it ends it.
pub open spec fn entered<P>(
    before: Seq<P>,
    after: Seq<P>,
    entry: Entry,
    listing: Option<Result<Vec<P>, String>>,
    r: Result<bool, FunctionCallError>,
) -> bool {
    if is_excluded(entry) {
        r == Ok::<bool, FunctionCallError>(true) && after == before
    } else {
        match listing->0 {
            Ok(paths) => r == Ok::<bool, FunctionCallError>(true) && after == before + paths@,
            Err(message) => {
                &&& r matches Err(error)
                &&& error.says(message@)
                &&& after == before
            },
        }
    }
}

/// What is found after a hit: one more, unless the limit is reached.
pub open spec fn added<H>(found: Seq<H>, hit: Option<H>, limit: usize) -> Seq<H> {
    match hit {
        Some(held) => if found.len() < limit {
            found.push(held)
        } else {
            found
        },
        None => found,
    }
}

/// What a visit does while files are collected: to the walk and to the files, and whether it goes
/// on.
pub open spec fn file_visited<P>(
    stack: (Seq<P>, Seq<P>),
    files: (Seq<P>, Seq<P>),
    path: P,
    visit: Visit<P>,
    filters: PathFilters,
    cap: usize,
    r: Result<bool, FunctionCallError>,
) -> bool {
    match visit {
        Visit::Denied { path } => {
            &&& r matches Err(error)
            &&& error.says(read_denied(path@))
            &&& stack.1 == stack.0
            &&& files.1 == files.0
        },
        Visit::Missing => {
            &&& r == Ok::<bool, FunctionCallError>(true)
            &&& stack.1 == stack.0
            &&& files.1 == files.0
        },
        Visit::Directory { entry, listing } => {
            &&& entered(stack.0, stack.1, entry, listing, r)
            &&& files.1 == files.0
        },
        Visit::File { entry } => {
            &&& stack.1 == stack.0
            &&& if keeps(entry, filters) {
                &&& files.1 == added(files.0, Some(path), cap)
                &&& r == Ok::<bool, FunctionCallError>(files.0.len() + 1 < cap)
            } else {
                &&& files.1 == files.0
                &&& r == Ok::<bool, FunctionCallError>(true)
            }
        },
    }
}

/// Visits a path while files are collected. Returns whether to go on.
pub fn visit_file<P>(
    walk: &mut Walk<P>,
    path: P,
    visit: Visit<P>,
    filters: &PathFilters,
    cap: usize,
    files: &mut Vec<P>,
) -> (r: Result<bool, FunctionCallError>)
    requires
        visit.complete(),
    ensures
        file_visited(
            (old(walk).stack@, final(walk).stack@),
            (old(files)@, final(files)@),
            path,
            visit,
            *filters,
            cap,
            r,
        ),
{
    match visit {
        Visit::Denied { path } => Err(read_denied_error(path.as_str())),
        Visit::Missing => Ok(true),
        Visit::Directory { entry, listing } => match enter(walk, &entry, listing) {
            Ok(_) => Ok(true),
            Err(error) => Err(error),
        },
        Visit::File { entry } => {
            if path_allowed(entry.path.as_str(), relative_of(&entry), name_of(&entry), filters) {
                if files.len() >= cap {
                    return Ok(false);
                }
                files.push(path);
                Ok(files.len() < cap)
            } else {
                Ok(true)
            }
        },
    }
}

/// A path that a search found.
#[derive(Debug, PartialEq, Eq)]
pub struct SearchMatch {
    pub path: String,
    pub relative_path: Option<String>,
    pub score: i32,
}

/// A path that a search found.
pub struct Hit {
    pub path: Seq<char>,
    pub relative_path: Option<Seq<char>>,
    pub score: i32,
}

/// The found paths as plain values.
pub open spec fn hits(matches: Seq<SearchMatch>) -> Seq<Hit> {
    Seq::new(
        matches.len(),
        |i: int|
            Hit {
                path: matches[i].path@,
                relative_path: text_of(matches[i].relative_path),
                score: matches[i].score,
            },
    )
}

/// What a search makes of a file.
pub open spec fn searched_file(entry: Entry, query: Seq<char>, filters: PathFilters) -> Option<Hit> {
    if keeps(entry, filters) {
        match score_of(entry.path@, query) {
            Some(score) => Some(
                Hit { path: entry.path@, relative_path: text_of(entry.relative_path), score },
            ),
            None => None,
        }
    } else {
        None
    }
}

/// What a visit does while paths are searched: to the walk and to the found paths, and whether it
/// goes on.
pub open spec fn search_visited<P>(
    stack: (Seq<P>, Seq<P>),
    found: (Seq<Hit>, Seq<Hit>),
    visit: Visit<P>,
    query: Seq<char>,
    filters: PathFilters,
    limit: usize,
    r: Result<bool, FunctionCallError>,
) -> bool {
    match visit {
        Visit::Denied { path } => {
            &&& r matches Err(error)
            &&& error.says(read_denied(path@))
            &&& stack.1 == stack.0
            &&& found.1 == found.0
        },
        Visit::Missing => {
            &&& r == Ok::<bool, FunctionCallError>(true)
            &&& stack.1 == stack.0
            &&& found.1 == found.0
        },
        Visit::Directory { entry, listing } => {
            &&& entered(stack.0, stack.1, entry, listing, r)
            &&& found.1 == found.0
        },
        Visit::File { entry } => {
            &&& stack.1 == stack.0
            &&& match searched_file(entry, query, filters) {
                Some(hit) => {
                    &&& found.1 == added(found.0, Some(hit), limit)
                    &&& r == Ok::<bool, FunctionCallError>(found.0.len() + 1 < limit)
                },
                None => {
                    &&& found.1 == found.0
                    &&& r == Ok::<bool, FunctionCallError>(true)
                },
            }
        },
    }
}

/// Visits a path while paths are searched for `query`. Returns whether to go on.
pub fn visit_search<P>(
    walk: &mut Walk<P>,
    visit: Visit<P>,
    query: &str,
    filters: &PathFilters,
    limit: usize,
    matches: &mut Vec<SearchMatch>,
) -> (r: Result<bool, FunctionCallError>)
    requires
        visit.complete(),
    ensures
        search_visited(
            (old(walk).stack@, final(walk).stack@),
            (hits(old(matches)@), hits(final(matches)@)),
            visit,
            query@,
            *filters,
            limit,
            r,
        ),
{
    match visit {
        Visit::Denied { path } => Err(read_denied_error(path.as_str())),
        Visit::Missing => Ok(true),
        Visit::Directory { entry, listing } => match enter(walk, &entry, listing) {
            Ok(_) => Ok(true),
            Err(error) => Err(error),
        },
        Visit::File { entry } => {
            if !path_allowed(entry.path.as_str(), relative_of(&entry), name_of(&entry), filters) {
                return Ok(true);
            }
            match fuzzy_score(entry.path.as_str(), query) {
                Some(score) => {
                    let ghost before = matches@;
                    assert(hits(before).len() == before.len());
                    if matches.len() >= limit {
                        return Ok(false);
                    }
                    let found = SearchMatch {
                        path: entry.path,
                        relative_path: entry.relative_path,
                        score,
                    };
                    matches.push(found);
                    assert(hits(matches@) =~= hits(before).push(
                        Hit {
                            path: found.path@,
                            relative_path: text_of(found.relative_path),
                            score,
                        },
                    ));
                    Ok(matches.len() < limit)
                },
                None => Ok(true),
            }
        },
    }
}

/// Which entries a glob search lists.
#[derive(Clone, Copy, Debug, PartialEq, Eq, Structural)]
pub enum GlobEntryType {
    File,
    Dir,
    Any,
}

impl Default for GlobEntryType {
    fn default() -> (r: GlobEntryType)
        ensures
            r == GlobEntryType::File,
    {
        GlobEntryType::File
    }
}

/// An entry that a glob matched.
#[derive(Debug, PartialEq, Eq)]
pub struct GlobMatch {
    pub path: String,
    pub relative_path: Option<String>,
    pub entry_type: GlobEntryType,
}

impl GlobMatch {
    /// The kind of the entry in words.
    pub fn entry_type_name(&self) -> (r: &'static str)
        ensures
            r@ == match self.entry_type {
                GlobEntryType::File => "file"@,
                GlobEntryType::Dir => "dir"@,
                GlobEntryType::Any => "unknown"@,
            },
    {
        match self.entry_type {
            GlobEntryType::File => "file",
            GlobEntryType::Dir => "dir",
            GlobEntryType::Any => "unknown",
        }
    }
}

/// An entry that a glob matched.
pub struct GlobHit {
    pub path: Seq<char>,
    pub relative_path: Option<Seq<char>>,
    pub entry_type: GlobEntryType,
}

/// The matched entries as plain values.
pub open spec fn glob_hits(matches: Seq<GlobMatch>) -> Seq<GlobHit> {
    Seq::new(
        matches.len(),
        |i: int|
            GlobHit {
                path: matches[i].path@,
                relative_path: text_of(matches[i].relative_path),
                entry_type: matches[i].entry_type,
            },
    )
}

/// What a glob search makes of an entry.
pub open spec fn globbed(
    entry: Entry,
    actual: GlobEntryType,
    pattern: Seq<char>,
    wanted: GlobEntryType,
) -> Option<GlobHit> {
    if (wanted == GlobEntryType::Any || wanted == actual) && path_matches(
        pattern,
        entry.path@,
        text_of(entry.relative_path),
        text_of(entry.name),
    ) {
        Some(
            GlobHit {
                path: entry.path@,
                relative_path: text_of(entry.relative_path),
                entry_type: actual,
            },
        )
    } else {
        None
    }
}

/// What a glob search does with an entry, and whether it goes on.
pub open spec fn glob_listed(
    before: Seq<GlobHit>,
    after: Seq<GlobHit>,
    found: Option<GlobHit>,
    limit: usize,
    r: Result<bool, FunctionCallError>,
) -> bool {
    match found {
        Some(hit) => {
            &&& after == added(before, Some(hit), limit)
            &&& r == Ok::<bool, FunctionCallError>(before.len() + 1 < limit)
        },
        None => {
            &&& after == before
            &&& r == Ok::<bool, FunctionCallError>(true)
        },
    }
}

fn list_match(
    entry: Entry,
    actual: GlobEntryType,
    pattern: &str,
    wanted: GlobEntryType,
    limit: usize,
    matches: &mut Vec<GlobMatch>,
) -> (r: Result<bool, FunctionCallError>)
    ensures
        glob_listed(
            glob_hits(old(matches)@),
            glob_hits(final(matches)@),
            globbed(entry, actual, pattern@, wanted),
            limit,
            r,
        ),
{
    if wanted != GlobEntryType::Any && wanted != actual {
        return Ok(true);
    }
    if path_matches_glob(pattern, entry.path.as_str(), relative_of(&entry), name_of(&entry)) {
        let ghost before = matches@;
        assert(glob_hits(before).len() == before.len());
        if matches.len() >= limit {
            return Ok(false);
        }
        let found = GlobMatch {
            path: entry.path,
            relative_path: entry.relative_path,
            entry_type: actual,
        };
        matches.push(found);
        assert(glob_hits(matches@) =~= glob_hits(before).push(
            GlobHit {
                path: found.path@,
                relative_path: text_of(found.relative_path),
                entry_type: actual,
            },
        ));
        Ok(matches.len() < limit)
    } else {
        Ok(true)
    }
}

/// What a visit does while entries are matched against a glob: to the walk and to the matched
/// entries, and whether it goes on.
pub open spec fn glob_visited<P>(
    stack: (Seq<P>, Seq<P>),
    found: (Seq<GlobHit>, Seq<GlobHit>),
    visit: Visit<P>,
    pattern: Seq<char>,
    entry_type: GlobEntryType,
    limit: usize,
    r: Result<bool, FunctionCallError>,
) -> bool {
    match visit {
        Visit::Denied { path } => {
            &&& r matches Err(error)
            &&& error.says(read_denied(path@))
            &&& stack.1 == stack.0
            &&& found.1 == found.0
        },
        Visit::Missing => {
            &&& r == Ok::<bool, FunctionCallError>(true)
            &&& stack.1 == stack.0
            &&& found.1 == found.0
        },
        Visit::Directory { entry, listing } => {
            if !is_excluded(entry) && listing->0 is Err {
                &&& r matches Err(error)
                &&& error.says(listing->0->Err_0@)
                &&& stack.1 == stack.0
                &&& found.1 == found.0
            } else {
                &&& stack.1 == if is_excluded(entry) {
                    stack.0
                } else {
                    stack.0 + listing->0->Ok_0@
                }
                &&& glob_listed(
                    found.0,
                    found.1,
                    globbed(entry, GlobEntryType::Dir, pattern, entry_type),
                    limit,
                    r,
                )
            }
        },
        Visit::File { entry } => {
            &&& stack.1 == stack.0
            &&& glob_listed(
                found.0,
                found.1,
                globbed(entry, GlobEntryType::File, pattern, entry_type),
                limit,
                r,
            )
        },
    }
}

/// Visits a path while entries are matched against a glob. A directory that no search goes into can
/// still match. Returns whether to go on.
pub fn visit_glob<P>(
    walk: &mut Walk<P>,
    visit: Visit<P>,
    pattern: &str,
    entry_type: GlobEntryType,
    limit: usize,
    matches: &mut Vec<GlobMatch>,
) -> (r: Result<bool, FunctionCallError>)
    requires
        visit.complete(),
    ensures
        glob_visited(
            (old(walk).stack@, final(walk).stack@),
            (glob_hits(old(matches)@), glob_hits(final(matches)@)),
            visit,
            pattern@,
            entry_type,
            limit,
            r,
        ),
{
    match visit {
        Visit::Denied { path } => Err(read_denied_error(path.as_str())),
        Visit::Missing => Ok(true),
        Visit::Directory { entry, listing } => {
            match enter(walk, &entry, listing) {
                Ok(_) => {},
                Err(error) => return Err(error),
            }
            list_match(entry, GlobEntryType::Dir, pattern, entry_type, limit, matches)
        },
        Visit::File { entry } => list_match(
            entry,
            GlobEntryType::File,
            pattern,
            entry_type,
            limit,
            matches,
        ),
    }
}

/// A score as a sort key: the order of scores, and of places among equal scores.
pub open spec fn score_key(score: i32, place: int) -> Key {
    ((score + 0x8000_0000) as usize, place as usize, 0)
}

/// The sort keys of the found paths.
pub open spec fn score_keys(matches: Seq<Hit>) -> Seq<Key> {
    Seq::new(matches.len(), |i: int| score_key(matches[i].score, i))
}

/// The found paths from the lowest score to the highest; equal scores keep their order.
pub open spec fn ranked(matches: Seq<Hit>) -> Seq<Hit> {
    let order = sorted_keys(score_keys(matches));
    Seq::new(order.len(), |k: int| matches[order[k].1 as int])
}

/// The best of the found paths.
pub open spec fn best(matches: Seq<Hit>, limit: usize) -> Seq<Hit> {
    if limit < matches.len() {
        ranked(matches).take(limit as int)
    } else {
        ranked(matches)
    }
}

proof fn lemma_score_order(matches: Seq<Hit>)
    requires
        matches.len() <= usize::MAX,
    ensures
        sorted_keys(score_keys(matches)).len() == matches.len(),
        forall|k: int|
            #![trigger sorted_keys(score_keys(matches))[k]]
            0 <= k < matches.len() ==> {
                let key = sorted_keys(score_keys(matches))[k];
                &&& key.1 < matches.len()
                &&& key == score_key(matches[key.1 as int].score, key.1 as int)
            },
{
    let keys = score_keys(matches);
    let order = sorted_keys(keys);
    lemma_sorted_keys(keys);
    assert forall|k: int| 0 <= k < matches.len() implies ({
        let key = #[trigger] order[k];
        &&& key.1 < matches.len()
        &&& key == score_key(matches[key.1 as int].score, key.1 as int)
    }) by {
        assert(order.contains(order[k]));
        assert(keys.contains(order[k]));
        let i = choose|i: int| 0 <= i < keys.len() && keys[i] == order[k];
        assert(keys[i].1 == i);
    }
}

/// Ranking puts no path behind one with a higher score.
pub proof fn law_ranking_ascends(matches: Seq<Hit>)
    requires
        matches.len() <= usize::MAX,
    ensures
        ranked(matches).len() == matches.len(),
        forall|i: int, j: int|
            0 <= i < j < ranked(matches).len() ==> (#[trigger] ranked(matches)[i]).score <= (
            #[trigger] ranked(matches)[j]).score,
{
    let order = sorted_keys(score_keys(matches));
    lemma_score_order(matches);
    lemma_sorted_keys(score_keys(matches));
    assert forall|i: int, j: int| 0 <= i < j < ranked(matches).len() implies (
    #[trigger] ranked(matches)[i]).score <= (#[trigger] ranked(matches)[j]).score by {
        assert(key_le(order[i], order[j]));
    }
}

/// Whether a list holds the found paths in another order: `places` says where each of its paths was,
/// no place twice, and paths of equal score stay in order.
pub open spec fn rearranges(matches: Seq<Hit>, list: Seq<Hit>, places: Seq<int>) -> bool {
    &&& list.len() == matches.len()
    &&& places.len() == matches.len()
    &&& places.no_duplicates()
    &&& forall|k: int|
        0 <= k < places.len() ==> 0 <= #[trigger] places[k] < matches.len() && list[k]
            == matches[places[k]]
    &&& forall|i: int, j: int|
        0 <= i < j < places.len() && list[i].score == list[j].score ==> #[trigger] places[i]
            < #[trigger] places[j]
}

/// Ranking only rearranges the found paths, and keeps the order of those with equal scores.
pub proof fn law_ranking_rearranges(matches: Seq<Hit>)
    requires
        matches.len() <= usize::MAX,
    ensures
        exists|places: Seq<int>| rearranges(matches, ranked(matches), places),
{
    let keys = score_keys(matches);
    let order = sorted_keys(keys);
    lemma_score_order(matches);
    lemma_sorted_keys(keys);
    assert(keys.no_duplicates()) by {
        assert forall|i: int, j: int| 0 <= i < j < keys.len() implies keys[i] != keys[j] by {
            assert(keys[i].1 == i && keys[j].1 == j);
        }
    }
    keys.lemma_multiset_has_no_duplicates();
    order.lemma_multiset_has_no_duplicates_conv();
    let places = Seq::new(order.len(), |k: int| order[k].1 as int);
    assert forall|i: int, j: int| 0 <= i < j < places.len() implies places[i] != places[j] by {
        assert(order[i] != order[j]);
    }
    assert forall|i: int, j: int|
        0 <= i < j < places.len() && ranked(matches)[i].score == ranked(
            matches,
        )[j].score implies #[trigger] places[i] < #[trigger] places[j] by {
        assert(key_le(order[i], order[j]));
        assert(places[i] != places[j]);
    }
    assert(rearranges(matches, ranked(matches), places));
}

/// Sorts the found paths by score and keeps the best.
pub fn best_matches(matches: &[SearchMatch], limit: usize) -> (r: Vec<SearchMatch>)
    ensures
        hits(r@) == best(hits(matches@), limit),
{
    let total: usize = matches.len();
    let ghost all = hits(matches@);
    let mut keys: Vec<Key> = Vec::new();
    let mut i: usize = 0;
    while i < total
        invariant
            i <= total == matches@.len(),
            all == hits(matches@),
            keys@.len() == i,
            forall|j: int| 0 <= j < i ==> #[trigger] keys@[j] == score_keys(all)[j],
        decreases total - i,
    {
        let shifted: i64 = matches[i].score as i64 + 0x8000_0000;
        keys.push((shifted as usize, i, 0));
        i += 1;
    }
    assert(keys@ =~= score_keys(all));
    let order = sort_keys(keys.as_slice());
    proof {
        lemma_score_order(all);
    }
    let kept: usize = if limit < total {
        limit
    } else {
        total
    };
    let mut out: Vec<SearchMatch> = Vec::new();
    let mut k: usize = 0;
    assert(hits(out@) =~= ranked(all).take(0));
    while k < kept
        invariant
            k <= kept <= total == matches@.len(),
            all == hits(matches@),
            order@ == sorted_keys(score_keys(all)),
            order@.len() == total,
            forall|j: int| 0 <= j < total ==> (#[trigger] order@[j]).1 < total,
            hits(out@) == ranked(all).take(k as int),
        decreases kept - k,
    {
        assert(order@[k as int].1 < total);
        let entry = &matches[order[k].1];
        let ghost before = out@;
        let found = SearchMatch {
            path: owned(entry.path.as_str()),
            relative_path: copy_text(&entry.relative_path),
            score: entry.score,
        };
        out.push(found);
        proof {
            assert(hits(out@) =~= hits(before).push(
                Hit {
                    path: found.path@,
                    relative_path: text_of(found.relative_path),
                    score: found.score,
                },
            ));
            assert(ranked(all)[k as int] == all[order@[k as int].1 as int]);
            assert(ranked(all).take(k + 1) =~= ranked(all).take(k as int).push(
                ranked(all)[k as int],
            ));
        }
        k += 1;
    }
    assert(ranked(all).take(total as int) =~= ranked(all));
    out
}

/// The paths of found paths.
pub open spec fn hit_paths(matches: Seq<Hit>) -> Seq<Seq<char>> {
    Seq::new(matches.len(), |i: int| matches[i].path)
}

/// What a search shows: the paths, one per line, behind a warning if there is one.
pub fn search_text_output(matches: &[SearchMatch], warning: Option<String>) -> (r: String)
    ensures
        r@ == warned(text_of(warning), joined(hit_paths(hits(matches@)), "\n"@)),
{
    let mut parts: Vec<String> = Vec::new();
    let mut i: usize = 0;
    while i < matches.len()
        invariant
            i <= matches@.len(),
            parts@.len() == i,
            forall|j: int| 0 <= j < i ==> (#[trigger] parts@[j])@ == matches@[j].path@,
        decreases matches@.len() - i,
    {
        parts.push(owned(matches[i].path.as_str()));
        i += 1;
    }
    assert(texts(parts@) =~= hit_paths(hits(matches@)));
    text_output_with_warnings(warning, join(parts.as_slice(), "\n"))
}

/// How a glob search shows an entry.
pub open spec fn shown_entry(hit: GlobHit, relative_only: bool) -> Seq<char> {
    if relative_only {
        match hit.relative_path {
            Some(relative) => relative,
            None => hit.path,
        }
    } else {
        hit.path
    }
}

/// What a glob search shows: the entries, one per line.
pub fn glob_text_output(matches: &[GlobMatch], relative_only: bool) -> (r: String)
    ensures
        r@ == joined(
            Seq::new(
                matches@.len(),
                |i: int| shown_entry(glob_hits(matches@)[i], relative_only),
            ),
            "\n"@,
        ),
{
    let mut parts: Vec<String> = Vec::new();
    let mut i: usize = 0;
    while i < matches.len()
        invariant
            i <= matches@.len(),
            parts@.len() == i,
            forall|j: int|
                0 <= j < i ==> (#[trigger] parts@[j])@ == shown_entry(
                    glob_hits(matches@)[j],
                    relative_only,
                ),
        decreases matches@.len() - i,
    {
        let entry = &matches[i];
        let part = match &entry.relative_path {
            Some(relative) => if relative_only {
                owned(relative.as_str())
            } else {
                owned(entry.path.as_str())
            },
            None => owned(entry.path.as_str()),
        };
        parts.push(part);
        i += 1;
    }
    assert(texts(parts@) =~= Seq::new(
        matches@.len(),
        |j: int| shown_entry(glob_hits(matches@)[j], relative_only),
    ));
    join(parts.as_slice(), "\n")
}

} // verus!
