//! What searches by name find: how paths are filtered, scored and ranked, and what each visit of a walk
//! does.
use vstd::prelude::*;
use vstd::utf8::encode_utf8;

use crate::change::warned;
use crate::edit_laws::is_there;
use crate::error::FunctionCallError;
use crate::grep::{
    line_hits, match_models, match_search, observes, FileLineObservation, GrepCollectOptions,
};
use crate::grep_laws::{
    is_match_of, is_near_a_hit, law_each_line_is_matched, law_every_match_is_shown,
    law_listed_lines_are_noted, law_no_match_is_left_out,
};
use crate::occurrence::{occurs, occurs_at};
use crate::outside::{lowercase, regex_matches, sha1_hex};
use crate::paths::{
    allowed, excluded_name, filter_warning, forward, found_places, glob_like, glob_matches,
    lemma_first_glob_like, lemma_next_place, lemma_no_glob_like, next_place, path_matches, score_of,
    some_glob, some_part, PathFilters,
};
use crate::search_flow::{
    answers_glob, answers_search, fills, found_count, glob_resumes, grep_full, grep_read,
    grep_resumes, invalid_regex, newly_collected, newly_found, newly_globbed, search_resumes,
    visit_failure, walked, GlobAction, GlobFileArgs, GlobOutput, GrepAction, GrepFound,
    OutputFormat, SearchAction, SearchFileArgs, SearchOutput,
};
use crate::text::{decimal, joined, lines_of, text_of, texts};
use crate::walk::{
    added, best, file_visited, glob_visited, law_ranking_ascends, law_ranking_rearranges, ranked,
    rearranges, search_visited, shown_entry, Entry, GlobEntryType, GlobHit, Hit, Visit,
};

verus! {

/// Whether the characters of the needle are found at these places, each as early as it can be behind the
/// one before it.
pub open spec fn is_first_spelling(text: Seq<char>, needle: Seq<char>, places: Seq<int>, from: int) -> bool {
    &&& places.len() == needle.len()
    &&& forall|i: int|
        0 <= i < places.len() ==> {
            let start = if i == 0 {
                from
            } else {
                places[i - 1] + 1
            };
            &&& start <= #[trigger] places[i] < text.len()
            &&& text[places[i]] == needle[i]
            &&& forall|j: int| start <= j < places[i] ==> #[trigger] text[j] != needle[i]
        }
}

proof fn lemma_first_spelling(text: Seq<char>, needle: Seq<char>, places: Seq<int>, from: int)
    requires
        0 <= from,
        is_first_spelling(text, needle, places, from),
    ensures
        found_places(text, needle, from) == Some(places),
    decreases needle.len(),
{
    if needle.len() == 0 {
        assert(places =~= Seq::<int>::empty());
    } else {
        let first = places[0];
        lemma_next_place(text, needle[0], from);
        assert(text[first] == needle[0]);
        let at = next_place(text, needle[0], from)->0;
        assert(at == first);
        let rest = places.skip(1);
        assert forall|i: int| 0 <= i < rest.len() implies {
            let start = if i == 0 {
                first + 1
            } else {
                rest[i - 1] + 1
            };
            &&& start <= #[trigger] rest[i] < text.len()
            &&& text[rest[i]] == needle.skip(1)[i]
            &&& forall|j: int| start <= j < rest[i] ==> #[trigger] text[j] != needle.skip(1)[i]
        } by {
            assert(rest[i] == places[i + 1]);
            assert(needle.skip(1)[i] == needle[i + 1]);
        }
        lemma_first_spelling(text, needle.skip(1), rest, first + 1);
        assert(seq![first] + rest =~= places);
    }
}

/// The score of a path is the distance between the first and the last character of the earliest spelling of
/// the query, less the length of the query. The case of letters makes no difference.
pub proof fn law_score_is_the_spread(haystack: Seq<char>, query: Seq<char>, places: Seq<int>)
    requires
        query.len() > 0,
        lowercase(query).len() > 0,
        lowercase(haystack).len() <= i32::MAX,
        is_first_spelling(lowercase(haystack), lowercase(query), places, 0),
    ensures
        score_of(haystack, query) matches Some(score) && score == places.last() - places[0]
            - places.len(),
{
    let text = lowercase(haystack);
    let needle = lowercase(query);
    lemma_first_spelling(text, needle, places, 0);
    lemma_places_ascend(text, needle, places, places.len() - 1);
    assert(0 <= places[0] <= places.last() < text.len());
    assert(places.len() <= places.last() + 1);
}

proof fn lemma_places_ascend(text: Seq<char>, needle: Seq<char>, places: Seq<int>, last: int)
    requires
        is_first_spelling(text, needle, places, 0),
        0 <= last < places.len(),
    ensures
        0 <= places[0] <= places[last],
        last <= places[last] < text.len(),
    decreases last,
{
    assert(0 <= places[0]);
    if last > 0 {
        lemma_places_ascend(text, needle, places, last - 1);
        assert(places[last - 1] + 1 <= places[last]);
    } else {
        assert(places[last] < text.len());
    }
}

/// An empty query finds every path, with the highest score.
pub proof fn law_empty_query_finds_all(haystack: Seq<char>)
    ensures
        score_of(haystack, Seq::empty()) == Some(i32::MAX),
{
}

/// Whether a path holds one of these texts.
pub open spec fn holds_one(path: Seq<char>, needles: Seq<String>) -> bool {
    exists|i: int, at: int| 0 <= i < needles.len() && #[trigger] is_there(path, needles[i]@, at)
}

/// Whether one of these globs matches a path as a whole, relative to its root, or the name of the file.
pub open spec fn fits_one(
    path: Seq<char>,
    relative_path: Option<Seq<char>>,
    name: Option<Seq<char>>,
    globs: Seq<String>,
) -> bool {
    exists|i: int|
        0 <= i < globs.len() && {
            ||| glob_matches((#[trigger] globs[i])@, path)
            ||| relative_path matches Some(relative) && glob_matches(globs[i]@, relative)
            ||| name matches Some(file) && glob_matches(globs[i]@, file)
        }
}

proof fn lemma_some_part(path: Seq<char>, needles: Seq<String>)
    ensures
        some_part(needles, path) == holds_one(path, needles),
{
    if some_part(needles, path) {
        let i = choose|i: int| 0 <= i < needles.len() && occurs(path, (#[trigger] needles[i])@);
        let at = choose|at: int| occurs_at(path, needles[i]@, at);
        assert(is_there(path, needles[i]@, at));
    }
    if holds_one(path, needles) {
        let (i, at) = choose|i: int, at: int|
            0 <= i < needles.len() && #[trigger] is_there(path, needles[i]@, at);
        assert(occurs_at(path, needles[i]@, at));
        assert(occurs(path, needles[i]@));
    }
}

/// A path is kept where it holds one of the included texts or none is asked for, holds none of the excluded
/// ones, fits one of the included globs or none is asked for, and fits none of the excluded ones.
pub proof fn law_filters_keep_what_they_name(
    path: Seq<char>,
    relative_path: Option<Seq<char>>,
    name: Option<Seq<char>>,
    filters: PathFilters,
)
    ensures
        allowed(path, relative_path, name, filters) <==> {
            &&& filters.included@.len() == 0 || holds_one(path, filters.included@)
            &&& !holds_one(path, filters.excluded@)
            &&& filters.include_globs@.len() == 0 || fits_one(
                path,
                relative_path,
                name,
                filters.include_globs@,
            )
            &&& !fits_one(path, relative_path, name, filters.exclude_globs@)
        },
{
    lemma_some_part(path, filters.included@);
    lemma_some_part(path, filters.excluded@);
    lemma_some_glob(path, relative_path, name, filters.include_globs@);
    lemma_some_glob(path, relative_path, name, filters.exclude_globs@);
}

proof fn lemma_some_glob(
    path: Seq<char>,
    relative_path: Option<Seq<char>>,
    name: Option<Seq<char>>,
    globs: Seq<String>,
)
    ensures
        some_glob(globs, path, relative_path, name) == fits_one(path, relative_path, name, globs),
{
    if some_glob(globs, path, relative_path, name) {
        let i = choose|i: int|
            0 <= i < globs.len() && path_matches((#[trigger] globs[i])@, path, relative_path, name);
        assert(glob_matches(globs[i]@, path) || path_matches(globs[i]@, path, relative_path, name));
    }
    if fits_one(path, relative_path, name, globs) {
        let i = choose|i: int|
            0 <= i < globs.len() && {
                ||| glob_matches((#[trigger] globs[i])@, path)
                ||| relative_path matches Some(relative) && glob_matches(globs[i]@, relative)
                ||| name matches Some(file) && glob_matches(globs[i]@, file)
            };
        assert(path_matches(globs[i]@, path, relative_path, name));
    }
}

/// A filter is taken for a glob where it holds a star, a question mark or an opening bracket. The warning
/// names the first such filter, and those that include come before those that exclude.
pub proof fn law_first_glob_like_filter_is_named(
    included: Seq<String>,
    excluded: Seq<String>,
    first: int,
)
    ensures
        forall|s: Seq<char>|
            #[trigger] glob_like(s) <==> exists|i: int|
                0 <= i < s.len() && (#[trigger] s[i] == '*' || s[i] == '?' || s[i] == '['),
        (forall|j: int| 0 <= j < included.len() ==> !glob_like((#[trigger] included[j])@)) && (
        forall|j: int| 0 <= j < excluded.len() ==> !glob_like((#[trigger] excluded[j])@))
            ==> filter_warning(included, excluded) is None,
        0 <= first < included.len() && glob_like(included[first]@) && (forall|j: int|
            0 <= j < first ==> !glob_like((#[trigger] included[j])@)) ==> filter_warning(
            included,
            excluded,
        )
            == Some(
            "warning: include/exclude use substring matching, not glob matching; use include_globs/exclude_globs for patterns like `"@
                + included[first]@ + "`"@,
        ),
        0 <= first < excluded.len() && glob_like(excluded[first]@) && (forall|j: int|
            0 <= j < first ==> !glob_like((#[trigger] excluded[j])@)) && (forall|j: int|
            0 <= j < included.len() ==> !glob_like((#[trigger] included[j])@)) ==> filter_warning(
            included,
            excluded,
        )
            == Some(
            "warning: include/exclude use substring matching, not glob matching; use include_globs/exclude_globs for patterns like `"@
                + excluded[first]@ + "`"@,
        ),
{
    assert forall|s: Seq<char>|
        #[trigger] glob_like(s) <==> exists|i: int|
            0 <= i < s.len() && (#[trigger] s[i] == '*' || s[i] == '?' || s[i] == '[') by {
        if exists|i: int|
            0 <= i < s.len() && (#[trigger] s[i] == '*' || s[i] == '?' || s[i] == '[') {
            let i = choose|i: int|
                0 <= i < s.len() && (#[trigger] s[i] == '*' || s[i] == '?' || s[i] == '[');
            assert(s.contains(s[i]));
        }
    }
    let all = included + excluded;
    if (forall|j: int| 0 <= j < included.len() ==> !glob_like((#[trigger] included[j])@)) {
        if (forall|j: int| 0 <= j < excluded.len() ==> !glob_like((#[trigger] excluded[j])@)) {
            assert forall|j: int| 0 <= j < all.len() implies !glob_like((#[trigger] all[j])@) by {
                if j < included.len() {
                    assert(all[j] == included[j]);
                } else {
                    assert(all[j] == excluded[j - included.len()]);
                }
            }
            lemma_no_glob_like(all);
        }
        if 0 <= first < excluded.len() && glob_like(excluded[first]@) && (forall|j: int|
            0 <= j < first ==> !glob_like((#[trigger] excluded[j])@)) {
            let at = included.len() + first;
            assert(all[at] == excluded[first]);
            assert forall|j: int| 0 <= j < at implies !glob_like((#[trigger] all[j])@) by {
                if j < included.len() {
                    assert(all[j] == included[j]);
                } else {
                    assert(all[j] == excluded[j - included.len()]);
                }
            }
            lemma_first_glob_like(all, at);
        }
    }
    if 0 <= first < included.len() && glob_like(included[first]@) && (forall|j: int|
        0 <= j < first ==> !glob_like((#[trigger] included[j])@)) {
        assert(all[first] == included[first]);
        assert forall|j: int| 0 <= j < first implies !glob_like((#[trigger] all[j])@) by {
            assert(all[j] == included[j]);
        }
        lemma_first_glob_like(all, first);
    }
}

/// The directories that no search goes into.
pub open spec fn skipped_names() -> Seq<Seq<char>> {
    seq![
        ".git"@,
        ".hg"@,
        ".svn"@,
        "node_modules"@,
        "target"@,
        "dist"@,
        "build"@,
        ".next"@,
    ]
}

/// No search goes into the directories of version control, of packages and of build outputs, and into no
/// others is it kept from going.
pub proof fn law_skipped_directories(name: Seq<char>)
    ensures
        excluded_name(name) <==> skipped_names().contains(name),
{
    let names = skipped_names();
    assert(names[0] == ".git"@ && names[1] == ".hg"@ && names[2] == ".svn"@ && names[3]
        == "node_modules"@ && names[4] == "target"@ && names[5] == "dist"@ && names[6] == "build"@
        && names[7] == ".next"@);
    if excluded_name(name) {
        assert(names.contains(name));
    }
}

/// A shown path holds no backslash: each has become a slash, and nothing else has changed.
pub proof fn law_slashes_lean_forward(text: Seq<char>, i: int)
    requires
        0 <= i < text.len(),
    ensures
        forward(text).len() == text.len(),
        !forward(text).contains('\\'),
        text[i] == '\\' ==> forward(text)[i] == '/',
        text[i] != '\\' ==> forward(text)[i] == text[i],
{
}

/// Whether the entry is a directory that no search goes into.
pub open spec fn is_skipped(entry: Entry) -> bool {
    entry.name matches Some(name) && skipped_names().contains(name@)
}

/// Whether this is the refusal to read a path.
pub open spec fn is_denied<T>(r: Result<T, FunctionCallError>, path: Seq<char>) -> bool {
    r matches Err(FunctionCallError::RespondToModel(message)) && message@
        == "access denied: reading `"@ + path + "` is blocked by filesystem deny_read policy"@
}

/// Whether a visit leaves to the walk what it should: the entries of a directory that is gone into are
/// visited next, and nothing else is added.
pub open spec fn walks_on<P>(stack: (Seq<P>, Seq<P>), visit: Visit<P>) -> bool {
    match visit {
        Visit::Directory { entry, listing } => if is_skipped(entry) {
            stack.1 == stack.0
        } else {
            match listing {
                Some(Ok(paths)) => stack.1 == stack.0 + paths@,
                _ => stack.1 == stack.0,
            }
        },
        _ => stack.1 == stack.0,
    }
}

/// Collecting files takes each file that the filters keep, as long as there is room, and ends when there is
/// none. A path that must not be read and a directory that cannot be listed end it with an error.
pub proof fn law_files_are_collected<P>(
    stack: (Seq<P>, Seq<P>),
    files: (Seq<P>, Seq<P>),
    path: P,
    visit: Visit<P>,
    filters: PathFilters,
    cap: usize,
    r: Result<bool, FunctionCallError>,
)
    requires
        visit.complete(),
        file_visited(stack, files, path, visit, filters, cap, r),
    ensures
        walks_on(stack, visit),
        match visit {
            Visit::File { entry } => {
                let kept = allowed(
                    entry.path@,
                    text_of(entry.relative_path),
                    text_of(entry.name),
                    filters,
                );
                &&& kept && files.0.len() < cap ==> files.1 == files.0.push(path)
                &&& !kept || files.0.len() >= cap ==> files.1 == files.0
                &&& r matches Ok(goes_on) && goes_on == (!kept || files.1.len() < cap
                    && files.0.len() < cap)
            },
            Visit::Denied { path: shown } => is_denied(r, shown@) && files.1 == files.0,
            Visit::Directory { entry, listing } => {
                &&& files.1 == files.0
                &&& is_skipped(entry) ==> r == Ok::<bool, FunctionCallError>(true)
                &&& !is_skipped(entry) && listing is Some ==> match listing->0 {
                    Ok(_) => r == Ok::<bool, FunctionCallError>(true),
                    Err(message) => r matches Err(FunctionCallError::RespondToModel(text)) && text@
                        == message@,
                }
            },
            Visit::Missing => r == Ok::<bool, FunctionCallError>(true) && files.1 == files.0,
        },
{
    if let Visit::Directory { entry, listing } = visit {
        if let Some(name) = entry.name {
            law_skipped_directories(name@);
        }
    }
}

/// Searching takes each file that the filters keep and the query finds, with its score, as long as there is
/// room, and ends when there is none.
pub proof fn law_files_are_searched<P>(
    stack: (Seq<P>, Seq<P>),
    found: (Seq<Hit>, Seq<Hit>),
    visit: Visit<P>,
    query: Seq<char>,
    filters: PathFilters,
    limit: usize,
    r: Result<bool, FunctionCallError>,
)
    requires
        visit.complete(),
        search_visited(stack, found, visit, query, filters, limit, r),
    ensures
        walks_on(stack, visit),
        match visit {
            Visit::File { entry } => {
                let score = score_of(entry.path@, query);
                let hit = allowed(
                    entry.path@,
                    text_of(entry.relative_path),
                    text_of(entry.name),
                    filters,
                ) && score is Some;
                &&& hit && found.0.len() < limit ==> {
                    &&& found.1.len() == found.0.len() + 1
                    &&& found.1.drop_last() == found.0
                    &&& found.1.last().path == entry.path@
                    &&& found.1.last().relative_path == text_of(entry.relative_path)
                    &&& found.1.last().score == score->0
                }
                &&& !hit || found.0.len() >= limit ==> found.1 == found.0
                &&& r matches Ok(goes_on) && goes_on == (!hit || found.0.len() + 1 < limit)
            },
            Visit::Denied { path } => is_denied(r, path@) && found.1 == found.0,
            Visit::Directory { entry, listing } => {
                &&& found.1 == found.0
                &&& is_skipped(entry) ==> r == Ok::<bool, FunctionCallError>(true)
                &&& !is_skipped(entry) && listing is Some ==> match listing->0 {
                    Ok(_) => r == Ok::<bool, FunctionCallError>(true),
                    Err(message) => r matches Err(FunctionCallError::RespondToModel(text)) && text@
                        == message@,
                }
            },
            Visit::Missing => r == Ok::<bool, FunctionCallError>(true) && found.1 == found.0,
        },
{
    if let Visit::Directory { entry, listing } = visit {
        if let Some(name) = entry.name {
            law_skipped_directories(name@);
        }
    }
    if let Visit::File { entry } = visit {
        if found.1.len() > found.0.len() {
            assert(found.1.drop_last() =~= found.0);
        }
    }
}

/// Whether a glob search lists an entry of this kind.
pub open spec fn lists(
    entry: Entry,
    actual: GlobEntryType,
    pattern: Seq<char>,
    wanted: GlobEntryType,
) -> bool {
    &&& wanted == GlobEntryType::Any || wanted == actual
    &&& {
        ||| glob_matches(pattern, entry.path@)
        ||| entry.relative_path matches Some(relative) && glob_matches(pattern, relative@)
        ||| entry.name matches Some(name) && glob_matches(pattern, name@)
    }
}

/// Whether a glob search did with an entry of this kind what it should: one more is listed where it matches
/// and there is room, and the search ends when there is none.
pub open spec fn is_listed(
    found: (Seq<GlobHit>, Seq<GlobHit>),
    entry: Entry,
    actual: GlobEntryType,
    pattern: Seq<char>,
    wanted: GlobEntryType,
    limit: usize,
    r: Result<bool, FunctionCallError>,
) -> bool {
    let hit = lists(entry, actual, pattern, wanted);
    &&& hit && found.0.len() < limit ==> {
        &&& found.1.len() == found.0.len() + 1
        &&& found.1.drop_last() == found.0
        &&& found.1.last().path == entry.path@
        &&& found.1.last().relative_path == text_of(entry.relative_path)
        &&& found.1.last().entry_type == actual
    }
    &&& !hit || found.0.len() >= limit ==> found.1 == found.0
    &&& r matches Ok(goes_on) && goes_on == (!hit || found.0.len() + 1 < limit)
}

/// A glob search lists each entry of the wanted kind that matches by its path, its path below the root or
/// its name. A directory that no search goes into can be listed too.
pub proof fn law_entries_are_globbed<P>(
    stack: (Seq<P>, Seq<P>),
    found: (Seq<GlobHit>, Seq<GlobHit>),
    visit: Visit<P>,
    pattern: Seq<char>,
    wanted: GlobEntryType,
    limit: usize,
    r: Result<bool, FunctionCallError>,
)
    requires
        visit.complete(),
        glob_visited(stack, found, visit, pattern, wanted, limit, r),
    ensures
        walks_on(stack, visit),
        match visit {
            Visit::File { entry } => is_listed(
                found,
                entry,
                GlobEntryType::File,
                pattern,
                wanted,
                limit,
                r,
            ),
            Visit::Directory { entry, listing } => if !is_skipped(entry) && listing matches Some(
                Err(_),
            ) {
                &&& found.1 == found.0
                &&& r matches Err(FunctionCallError::RespondToModel(text))
                &&& text@ == listing->0->Err_0@
            } else {
                is_listed(found, entry, GlobEntryType::Dir, pattern, wanted, limit, r)
            },
            Visit::Denied { path } => is_denied(r, path@) && found.1 == found.0,
            Visit::Missing => r == Ok::<bool, FunctionCallError>(true) && found.1 == found.0,
        },
{
    if let Visit::Directory { entry, listing } = visit {
        if let Some(name) = entry.name {
            law_skipped_directories(name@);
        }
    }
    if found.1.len() > found.0.len() {
        assert(found.1.drop_last() =~= found.0);
    }
}

/// The best of the found paths are those with the lowest scores, from the lowest on: all of them where they
/// are no more than the limit, else so many that none of the others has a lower score.
pub proof fn law_best_have_the_lowest_scores(matches: Seq<Hit>, limit: usize)
    requires
        matches.len() <= usize::MAX,
    ensures
        exists|list: Seq<Hit>, places: Seq<int>|
            {
                &&& #[trigger] rearranges(matches, list, places)
                &&& forall|i: int, j: int|
                    0 <= i < j < list.len() ==> (#[trigger] list[i]).score <= (#[trigger] list[j]).score
                &&& best(matches, limit) == list.take(
                    if limit < list.len() {
                        limit as int
                    } else {
                        list.len() as int
                    },
                )
            },
{
    law_ranking_ascends(matches);
    law_ranking_rearranges(matches);
    let list = ranked(matches);
    let places = choose|places: Seq<int>| rearranges(matches, list, places);
    assert(list.take(list.len() as int) =~= list);
    assert(rearranges(matches, list, places));
}

/// A listed entry is shown by its path below the root where only that is wanted and there is one, else by
/// its whole path.
pub proof fn law_entries_are_shown(hit: GlobHit)
    ensures
        shown_entry(hit, false) == hit.path,
        hit.relative_path matches Some(relative) ==> shown_entry(hit, true) == relative,
        hit.relative_path is None ==> shown_entry(hit, true) == hit.path,
{
}

/// Where a visit leads on: to all entries of a directory that is gone into, behind what is left to visit, and
/// nowhere else. It ends a search where a path must not be read or a directory cannot be listed.
pub proof fn law_visit_leads_on<P>(stack: Seq<P>, visit: Visit<P>)
    requires
        visit.complete(),
    ensures
        match visit {
            Visit::Directory { entry, listing } => if is_skipped(entry) {
                walked(stack, visit) == stack && visit_failure(visit) is None
            } else {
                match listing->0 {
                    Ok(paths) => walked(stack, visit) == stack + paths@ && visit_failure(visit) is None,
                    Err(message) => visit_failure(visit) == Some(message@),
                }
            },
            Visit::Denied { path } => visit_failure(visit) == Some(
                "access denied: reading `"@ + path@ + "` is blocked by filesystem deny_read policy"@,
            ),
            _ => walked(stack, visit) == stack && visit_failure(visit) is None,
        },
{
    if let Visit::Directory { entry, listing } = visit {
        if let Some(name) = entry.name {
            law_skipped_directories(name@);
        }
    }
}

/// What is found at a path: by a path search a file that the filters keep and the query finds, by a search in
/// files one that the filters keep, by a glob search an entry that it lists.
pub proof fn law_what_is_found_at_a_path<P>(
    path: P,
    visit: Visit<P>,
    query: Seq<char>,
    pattern: Seq<char>,
    wanted: GlobEntryType,
    filters: PathFilters,
)
    ensures
        match visit {
            Visit::File { entry } => {
                let kept = allowed(
                    entry.path@,
                    text_of(entry.relative_path),
                    text_of(entry.name),
                    filters,
                );
                let score = score_of(entry.path@, query);
                &&& newly_collected(path, visit, filters) == if kept {
                    Some(path)
                } else {
                    None
                }
                &&& kept && score is Some ==> newly_found(visit, query, filters) == Some(
                    Hit {
                        path: entry.path@,
                        relative_path: text_of(entry.relative_path),
                        score: score->0,
                    },
                )
                &&& !kept || score is None ==> newly_found(visit, query, filters) is None
                &&& newly_globbed(visit, pattern, wanted) is Some <==> lists(
                    entry,
                    GlobEntryType::File,
                    pattern,
                    wanted,
                )
                &&& newly_globbed(visit, pattern, wanted) matches Some(hit) ==> hit.path
                    == entry.path@ && hit.relative_path == text_of(entry.relative_path)
                    && hit.entry_type == GlobEntryType::File
            },
            Visit::Directory { entry, .. } => {
                &&& newly_collected(path, visit, filters) is None
                &&& newly_found(visit, query, filters) is None
                &&& newly_globbed(visit, pattern, wanted) is Some <==> lists(
                    entry,
                    GlobEntryType::Dir,
                    pattern,
                    wanted,
                )
                &&& newly_globbed(visit, pattern, wanted) matches Some(hit) ==> hit.path
                    == entry.path@ && hit.relative_path == text_of(entry.relative_path)
                    && hit.entry_type == GlobEntryType::Dir
            },
            _ => {
                &&& newly_collected(path, visit, filters) is None
                &&& newly_found(visit, query, filters) is None
                &&& newly_globbed(visit, pattern, wanted) is None
            },
        },
{
}

/// What is found is put behind what was found before as long as there is room, and the search is over when
/// there is none left.
pub proof fn law_found_things_are_kept<H>(found: Seq<H>, hit: H, limit: usize)
    ensures
        found.len() < limit ==> added(found, Some(hit), limit) == found.push(hit),
        found.len() >= limit ==> added(found, Some(hit), limit) == found,
        added(found, None, limit) == found,
        fills(found, Some(hit), limit) <==> found.len() + 1 >= limit,
        !fills(found, None::<H>, limit),
{
}

/// A path search visits what is left to visit, from the last path on; then it goes to its next root, unless it
/// has found enough; else it answers.
pub proof fn law_path_search_goes_on<P>(
    args: SearchFileArgs,
    root_count: usize,
    stack: (Seq<P>, Seq<P>),
    next_root: (usize, usize),
    found: Seq<Hit>,
    action: SearchAction<P>,
)
    requires
        search_resumes(args, root_count, stack, next_root, found, action),
    ensures
        stack.0.len() > 0 ==> action == SearchAction::Visit(stack.0.last()) && stack.1.push(
            stack.0.last(),
        ) == stack.0 && next_root.1 == next_root.0,
        stack.0.len() == 0 && found.len() < args.limit && next_root.0 < root_count ==> action
            == SearchAction::<P>::Root(next_root.0) && next_root.1 == next_root.0 + 1
            && stack.1.len() == 0,
        stack.0.len() == 0 && (found.len() >= args.limit || next_root.0 >= root_count) ==> (
        action matches SearchAction::Finish(Ok(output)) && answers_search(args, found, output)),
{
    if stack.0.len() > 0 {
        assert(stack.0.drop_last().push(stack.0.last()) =~= stack.0);
    }
}

/// A path search answers with the best of what it found: as paths, one per line and behind a warning if there
/// is one, or as a list.
pub proof fn law_path_search_answers(args: SearchFileArgs, found: Seq<Hit>, output: SearchOutput)
    requires
        answers_search(args, found, output),
    ensures
        args.output_format == OutputFormat::Text ==> (output matches SearchOutput::Text(text)
            && text@ == warned(
            filter_warning(args.filters.included@, args.filters.excluded@),
            joined(best(found, args.limit).map_values(|hit: Hit| hit.path), "\n"@),
        )),
        args.output_format == OutputFormat::Json ==> (output matches SearchOutput::Json(matches)
            && matches@.len() == best(found, args.limit).len() && forall|i: int|
            0 <= i < matches@.len() ==> (#[trigger] matches@[i]).path@ == best(
                found,
                args.limit,
            )[i].path && text_of(matches@[i].relative_path) == best(
                found,
                args.limit,
            )[i].relative_path && matches@[i].score == best(found, args.limit)[i].score),
{
    let list = best(found, args.limit);
    assert(crate::walk::hit_paths(list) =~= list.map_values(|hit: Hit| hit.path));
    if let SearchOutput::Json(matches) = output {
        let shown = crate::walk::hits(matches@);
        assert(shown.len() == matches@.len());
        assert forall|i: int| 0 <= i < matches@.len() implies (#[trigger] matches@[i]).path@
            == shown[i].path && text_of(matches@[i].relative_path) == shown[i].relative_path
            && matches@[i].score == shown[i].score by {}
    }
}

/// A glob search visits what is left to visit, from the last path on; then it answers with all that it found,
/// one per line or as a list.
pub proof fn law_glob_search_goes_on<P>(
    args: GlobFileArgs,
    stack: (Seq<P>, Seq<P>),
    found: Seq<GlobHit>,
    action: GlobAction<P>,
)
    requires
        glob_resumes(args, stack, found, action),
    ensures
        stack.0.len() > 0 ==> action == GlobAction::Visit(stack.0.last()) && stack.1.push(
            stack.0.last(),
        ) == stack.0,
        stack.0.len() == 0 && args.output_format == OutputFormat::Text ==> (
        action matches GlobAction::Finish(Ok(GlobOutput::Text(text))) && text@ == joined(
            found.map_values(|hit: GlobHit| shown_entry(hit, args.relative_only)),
            "\n"@,
        )),
        stack.0.len() == 0 && args.output_format == OutputFormat::Json ==> (
        action matches GlobAction::Finish(Ok(GlobOutput::Json(matches))) && matches@.len()
            == found.len() && forall|i: int|
            0 <= i < matches@.len() ==> (#[trigger] matches@[i]).path@ == found[i].path && text_of(
                matches@[i].relative_path,
            ) == found[i].relative_path && matches@[i].entry_type == found[i].entry_type),
{
    if stack.0.len() > 0 {
        assert(stack.0.drop_last().push(stack.0.last()) =~= stack.0);
    } else {
        assert(Seq::new(found.len(), |i: int| shown_entry(found[i], args.relative_only))
            =~= found.map_values(|hit: GlobHit| shown_entry(hit, args.relative_only)));
        if let GlobAction::Finish(Ok(GlobOutput::Json(matches))) = action {
            let shown = crate::walk::glob_hits(matches@);
            assert(shown.len() == matches@.len());
            assert forall|i: int| 0 <= i < matches@.len() implies (#[trigger] matches@[i]).path@
                == shown[i].path && text_of(matches@[i].relative_path) == shown[i].relative_path
                && matches@[i].entry_type == shown[i].entry_type by {}
        }
    }
}

/// A search in files visits what is left to visit, then reads the files that it collected in their order, then
/// goes to its next root, unless it has found enough.
pub proof fn law_search_in_files_goes_on<P>(
    root_count: usize,
    stack: (Seq<P>, Seq<P>),
    files: (Seq<P>, Seq<P>),
    next_root: (usize, usize),
    found: nat,
    limit: usize,
    action: GrepAction<P>,
)
    requires
        grep_resumes(root_count, stack, files, next_root, found, limit, action),
    ensures
        stack.0.len() > 0 ==> action == GrepAction::Visit(stack.0.last()) && stack.1.push(
            stack.0.last(),
        ) == stack.0 && files.1 == files.0 && next_root.1 == next_root.0,
        stack.0.len() == 0 && files.0.len() > 0 ==> action == GrepAction::Read(files.0[0]) && seq![
            files.0[0],
        ] + files.1 == files.0 && stack.1.len() == 0 && next_root.1 == next_root.0,
        stack.0.len() == 0 && files.0.len() == 0 && found < limit && next_root.0 < root_count
            ==> action == GrepAction::<P>::Root(next_root.0) && next_root.1 == next_root.0 + 1,
        stack.0.len() == 0 && files.0.len() == 0 && (found >= limit || next_root.0 >= root_count)
            ==> action == GrepAction::<P>::Finish(Ok(())),
{
    if stack.0.len() > 0 {
        assert(stack.0.drop_last().push(stack.0.last()) =~= stack.0);
    } else if files.0.len() > 0 {
        assert(seq![files.0[0]] + files.0.skip(1) =~= files.0);
    }
}

/// What a search found is counted by the lines that it shows, or by the matches that it lists.
pub proof fn law_found_things_are_counted(found: GrepFound)
    ensures
        found matches GrepFound::Text(shown) ==> found_count(found) == shown@.len(),
        found matches GrepFound::Structured(matches) ==> found_count(found) == matches@.len(),
{
}

/// The shown lines of a file are noted once behind those of the files before it, with the hash of its text;
/// a file of which nothing is shown is not noted.
pub proof fn law_shown_lines_are_noted<P>(
    before: Seq<FileLineObservation<P>>,
    after: Seq<FileLineObservation<P>>,
    path: P,
    text: Seq<char>,
    lines: Seq<usize>,
)
    requires
        observes(before, after, path, text, lines),
    ensures
        lines.len() == 0 ==> after == before,
        lines.len() > 0 ==> {
            &&& after.len() == before.len() + 1
            &&& forall|i: int| 0 <= i < before.len() ==> #[trigger] after[i] == before[i]
            &&& after.last().path == path
            &&& after.last().content_hash@ == "sha1:"@ + sha1_hex(encode_utf8(text))
            &&& after.last().lines@ == lines
        },
{
    if lines.len() > 0 {
        assert forall|i: int| 0 <= i < before.len() implies #[trigger] after[i] == before[i] by {
            assert(after.drop_last()[i] == after[i]);
        }
    }
}

/// A search in a file that does not reach the limit shows every line of the file that the regex matches, with
/// the path and its number, or lists it.
pub proof fn law_file_is_searched<P>(
    options: GrepCollectOptions,
    found: (GrepFound, GrepFound),
    observations: (Seq<FileLineObservation<P>>, Seq<FileLineObservation<P>>),
    path: P,
    shown: Seq<char>,
    text: Seq<char>,
    index: int,
)
    requires
        grep_read(options, found, observations, path, shown, text),
        !grep_full(options, found.0, shown, text),
        lines_of(text).len() <= usize::MAX,
        0 <= index < lines_of(text).len(),
        regex_matches(options.pattern@, options.case_insensitive, lines_of(text)[index]),
    ensures
        found.1 matches GrepFound::Text(lines) ==> texts(lines@).contains(
            shown + ":"@ + decimal((index + 1) as nat) + ":"@ + lines_of(text)[index],
        ),
        found.1 matches GrepFound::Structured(matches) ==> exists|k: int|
            0 <= k < matches@.len() && is_match_of(
                (#[trigger] matches@[k]).model(),
                shown,
                lines_of(text),
                index,
                options.context as int,
            ),
        found.0 is Text <==> found.1 is Text,
        observations.1.len() == observations.0.len() + 1,
        observations.1.last().path == path,
        observations.1.last().lines@.contains((index + 1) as usize),
{
    let all = lines_of(text);
    let hits = line_hits(options.pattern@, options.case_insensitive, all);
    let context = options.context as int;
    let limit = options.limit as int;
    law_each_line_is_matched(options.pattern@, options.case_insensitive, all, index);
    match found.0 {
        GrepFound::Text(before) => {
            law_every_match_is_shown(
                texts(before@),
                shown,
                all,
                hits,
                context,
                limit,
                all.len(),
                index,
                index,
            );
        },
        GrepFound::Structured(before) => {
            let earlier = match_models(before@);
            law_no_match_is_left_out(earlier, shown, all, hits, context, limit, all.len(), index);
            law_listed_lines_are_noted(earlier, shown, all, hits, context, limit, all.len());
            let result = match_search(earlier, shown, all, hits, context, limit, all.len());
            let k = choose|k: int|
                earlier.len() <= k < result.matches.len() && is_match_of(
                    #[trigger] result.matches[k],
                    shown,
                    all,
                    index,
                    context,
                );
            if let GrepFound::Structured(matches) = found.1 {
                assert(match_models(matches@)[k] == matches@[k].model());
            }
            assert(hits[index]);
            assert(is_near_a_hit(hits, all.len(), index, context));
        },
    }
}

/// A search with a pattern that is no regex is refused with the reason.
pub proof fn law_refused_pattern_is_told(reason: Seq<char>)
    ensures
        invalid_regex(reason) == "invalid regex: "@ + reason,
{
}

/// A glob search answers with all entries that it found, in the order in which it found them: as lines, each
/// the path below the root where that is wanted and known, or as a list.
pub proof fn law_glob_search_answers(args: GlobFileArgs, found: Seq<GlobHit>, output: GlobOutput)
    requires
        answers_glob(args, found, output),
    ensures
        args.output_format == OutputFormat::Text ==> (output matches GlobOutput::Text(text)
            && text@ == joined(
            found.map_values(
                |hit: GlobHit|
                    if args.relative_only && hit.relative_path is Some {
                        hit.relative_path->0
                    } else {
                        hit.path
                    },
            ),
            "\n"@,
        )),
        args.output_format == OutputFormat::Json ==> (output matches GlobOutput::Json(matches)
            && matches@.len() == found.len() && forall|i: int|
            0 <= i < found.len() ==> (#[trigger] matches@[i]).path@ == found[i].path && text_of(
                matches@[i].relative_path,
            ) == found[i].relative_path && matches@[i].entry_type == found[i].entry_type),
{
    let lines = found.map_values(
        |hit: GlobHit|
            if args.relative_only && hit.relative_path is Some {
                hit.relative_path->0
            } else {
                hit.path
            },
    );
    assert(Seq::new(found.len(), |i: int| shown_entry(found[i], args.relative_only)) =~= lines);
    if let GlobOutput::Json(matches) = output {
        let shown = crate::walk::glob_hits(matches@);
        assert(shown.len() == matches@.len());
        assert forall|i: int| 0 <= i < matches@.len() implies (#[trigger] matches@[i]).path@
            == shown[i].path && text_of(matches@[i].relative_path) == shown[i].relative_path
            && matches@[i].entry_type == shown[i].entry_type by {}
    }
}

} // verus!
