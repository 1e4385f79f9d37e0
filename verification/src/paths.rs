//! Choosing files by their paths: filters, globs, and fuzzy search.
use vstd::prelude::*;
use vstd::string::*;

use crate::occurrence::{contains_text, occurs};
use crate::outside::{lowercase, regex_is_match, regex_matches, to_lowercase};
use crate::text::{contains_char, owned, slice_of, text_eq, text_of, to_chars};

verus! {

/// Which paths to keep: parts of paths, and globs.
#[derive(Debug, PartialEq, Eq)]
pub struct PathFilters {
    pub included: Vec<String>,
    pub excluded: Vec<String>,
    pub include_globs: Vec<String>,
    pub exclude_globs: Vec<String>,
}

/// The characters that a glob takes literally and a regex does not.
pub open spec fn needs_escape(c: char) -> bool {
    c == '.' || c == '+' || c == '(' || c == ')' || c == '|' || c == '^' || c == '$' || c == '{'
        || c == '}' || c == '[' || c == ']' || c == '\\'
}

/// The regex for what is left of a glob.
pub open spec fn glob_body(pattern: Seq<char>) -> Seq<char>
    decreases pattern.len(),
{
    if pattern.len() == 0 {
        Seq::empty()
    } else if pattern[0] == '*' {
        if pattern.len() > 1 && pattern[1] == '*' {
            if pattern.len() > 2 && pattern[2] == '/' {
                "(?:.*/)?"@ + glob_body(pattern.skip(3))
            } else {
                ".*"@ + glob_body(pattern.skip(2))
            }
        } else {
            "[^/]*"@ + glob_body(pattern.skip(1))
        }
    } else if pattern[0] == '?' {
        "[^/]"@ + glob_body(pattern.skip(1))
    } else if needs_escape(pattern[0]) {
        seq!['\\', pattern[0]] + glob_body(pattern.skip(1))
    } else {
        seq![pattern[0]] + glob_body(pattern.skip(1))
    }
}

/// The regex that matches exactly the texts that a glob matches.
pub open spec fn glob_regex(pattern: Seq<char>) -> Seq<char> {
    "^"@ + glob_body(pattern) + "$"@
}

/// Whether a glob matches a text.
pub open spec fn glob_matches(pattern: Seq<char>, text: Seq<char>) -> bool {
    regex_matches(glob_regex(pattern), false, text)
}

fn escaped(c: char) -> (r: bool)
    ensures
        r == needs_escape(c),
{
    c == '.' || c == '+' || c == '(' || c == ')' || c == '|' || c == '^' || c == '$' || c == '{'
        || c == '}' || c == '[' || c == ']' || c == '\\'
}

/// The regex that matches exactly the texts that a glob matches. `**` crosses slashes, `**/` also
/// matches nothing, `*` and `?` stay between slashes.
pub fn glob_to_regex(pattern: &str) -> (r: String)
    ensures
        r@ == glob_regex(pattern@),
{
    let chars = to_chars(pattern);
    let total: usize = chars.len();
    let mut out = owned("^");
    let mut i: usize = 0;
    assert(chars@.skip(0) =~= chars@);
    while i < total
        invariant
            i <= total == chars@.len(),
            chars@ == pattern@,
            out@ + glob_body(chars@.skip(i as int)) == "^"@ + glob_body(pattern@),
        decreases total - i,
    {
        let c = chars[i];
        let ghost rest = chars@.skip(i as int);
        let ghost before = out@;
        assert(rest[0] == c);
        if c == '*' {
            if total - i > 1 && chars[i + 1] == '*' {
                assert(rest[1] == '*');
                if total - i > 2 && chars[i + 2] == '/' {
                    assert(rest[2] == '/');
                    assert(rest.skip(3) =~= chars@.skip(i + 3));
                    out.append("(?:.*/)?");
                    assert(before + ("(?:.*/)?"@ + glob_body(rest.skip(3))) =~= out@ + glob_body(
                        rest.skip(3),
                    ));
                    i += 3;
                } else {
                    assert(rest.skip(2) =~= chars@.skip(i + 2));
                    out.append(".*");
                    assert(before + (".*"@ + glob_body(rest.skip(2))) =~= out@ + glob_body(
                        rest.skip(2),
                    ));
                    i += 2;
                }
            } else {
                assert(rest.skip(1) =~= chars@.skip(i + 1));
                out.append("[^/]*");
                assert(before + ("[^/]*"@ + glob_body(rest.skip(1))) =~= out@ + glob_body(
                    rest.skip(1),
                ));
                i += 1;
            }
        } else {
            assert(rest.skip(1) =~= chars@.skip(i + 1));
            if c == '?' {
                out.append("[^/]");
                assert(before + ("[^/]"@ + glob_body(rest.skip(1))) =~= out@ + glob_body(
                    rest.skip(1),
                ));
            } else if escaped(c) {
                out.push('\\');
                out.push(c);
                assert(before + (seq!['\\', c] + glob_body(rest.skip(1))) =~= out@ + glob_body(
                    rest.skip(1),
                ));
            } else {
                out.push(c);
                assert(before + (seq![c] + glob_body(rest.skip(1))) =~= out@ + glob_body(
                    rest.skip(1),
                ));
            }
            i += 1;
        }
    }
    proof {
        let rest = chars@.skip(total as int);
        assert(rest.len() == 0);
        assert(out@ =~= out@ + glob_body(rest));
    }
    out.append("$");
    out
}

/// Whether a glob matches a text.
pub fn glob_match(pattern: &str, text: &str) -> (r: bool)
    ensures
        r == glob_matches(pattern@, text@),
{
    regex_is_match(glob_to_regex(pattern).as_str(), false, text)
}

/// Whether a character stands for itself in a glob and in a regex.
pub open spec fn stands_for_itself(c: char) -> bool {
    c != '*' && c != '?' && !needs_escape(c)
}

proof fn lemma_plain_body(pattern: Seq<char>)
    requires
        forall|i: int| 0 <= i < pattern.len() ==> stands_for_itself(#[trigger] pattern[i]),
    ensures
        glob_body(pattern) == pattern,
    decreases pattern.len(),
{
    if pattern.len() > 0 {
        assert(stands_for_itself(pattern[0]));
        lemma_plain_body(pattern.skip(1));
        assert(seq![pattern[0]] + pattern.skip(1) =~= pattern);
    }
}

/// A glob without special characters becomes the anchored regex of the same characters.
pub proof fn law_plain_glob_is_literal(pattern: Seq<char>)
    requires
        forall|i: int| 0 <= i < pattern.len() ==> stands_for_itself(#[trigger] pattern[i]),
    ensures
        glob_regex(pattern) == "^"@ + pattern + "$"@,
{
    lemma_plain_body(pattern);
}

/// Whether a glob matches a path, the path relative to its root, or the name of the file.
pub open spec fn path_matches(
    pattern: Seq<char>,
    path: Seq<char>,
    relative_path: Option<Seq<char>>,
    name: Option<Seq<char>>,
) -> bool {
    ||| glob_matches(pattern, path)
    ||| relative_path matches Some(relative) && glob_matches(pattern, relative)
    ||| name matches Some(file) && glob_matches(pattern, file)
}

/// Whether a glob matches a path, the path relative to its root, or the name of the file.
pub fn path_matches_glob(
    pattern: &str,
    path: &str,
    relative_path: Option<&str>,
    name: Option<&str>,
) -> (r: bool)
    ensures
        r == path_matches(pattern@, path@, slice_of(relative_path), slice_of(name)),
{
    if glob_match(pattern, path) {
        return true;
    }
    if let Some(relative) = relative_path {
        if glob_match(pattern, relative) {
            return true;
        }
    }
    if let Some(file) = name {
        if glob_match(pattern, file) {
            return true;
        }
    }
    false
}

/// Whether some needle occurs in a path.
pub open spec fn some_part(needles: Seq<String>, path: Seq<char>) -> bool {
    exists|i: int| 0 <= i < needles.len() && occurs(path, (#[trigger] needles[i])@)
}

/// Whether some glob matches a path.
pub open spec fn some_glob(
    patterns: Seq<String>,
    path: Seq<char>,
    relative_path: Option<Seq<char>>,
    name: Option<Seq<char>>,
) -> bool {
    exists|i: int|
        0 <= i < patterns.len() && path_matches((#[trigger] patterns[i])@, path, relative_path, name)
}

/// Whether the filters keep a path.
pub open spec fn allowed(
    path: Seq<char>,
    relative_path: Option<Seq<char>>,
    name: Option<Seq<char>>,
    filters: PathFilters,
) -> bool {
    &&& filters.included@.len() == 0 || some_part(filters.included@, path)
    &&& !some_part(filters.excluded@, path)
    &&& filters.include_globs@.len() == 0 || some_glob(
        filters.include_globs@,
        path,
        relative_path,
        name,
    )
    &&& !some_glob(filters.exclude_globs@, path, relative_path, name)
}

fn has_part(needles: &[String], path: &str) -> (r: bool)
    ensures
        r == some_part(needles@, path@),
{
    let mut i: usize = 0;
    while i < needles.len()
        invariant
            i <= needles@.len(),
            forall|j: int| 0 <= j < i ==> !occurs(path@, (#[trigger] needles@[j])@),
        decreases needles@.len() - i,
    {
        if contains_text(path, needles[i].as_str()) {
            return true;
        }
        i += 1;
    }
    false
}

fn has_glob(
    patterns: &[String],
    path: &str,
    relative_path: Option<&str>,
    name: Option<&str>,
) -> (r: bool)
    ensures
        r == some_glob(patterns@, path@, slice_of(relative_path), slice_of(name)),
{
    let mut i: usize = 0;
    while i < patterns.len()
        invariant
            i <= patterns@.len(),
            forall|j: int|
                0 <= j < i ==> !path_matches(
                    (#[trigger] patterns@[j])@,
                    path@,
                    slice_of(relative_path),
                    slice_of(name),
                ),
        decreases patterns@.len() - i,
    {
        if path_matches_glob(patterns[i].as_str(), path, relative_path, name) {
            return true;
        }
        i += 1;
    }
    false
}

/// Whether the filters keep a path.
pub fn path_allowed(
    path: &str,
    relative_path: Option<&str>,
    name: Option<&str>,
    filters: &PathFilters,
) -> (r: bool)
    ensures
        r == allowed(path@, slice_of(relative_path), slice_of(name), *filters),
{
    (filters.included.len() == 0 || has_part(filters.included.as_slice(), path)) && !has_part(
        filters.excluded.as_slice(),
        path,
    ) && (filters.include_globs.len() == 0 || has_glob(
        filters.include_globs.as_slice(),
        path,
        relative_path,
        name,
    )) && !has_glob(filters.exclude_globs.as_slice(), path, relative_path, name)
}

/// Whether a value has a character that only globs have.
pub open spec fn glob_like(value: Seq<char>) -> bool {
    value.contains('*') || value.contains('?') || value.contains('[')
}

/// Whether a value has a character that only globs have.
pub fn looks_like_glob(value: &str) -> (r: bool)
    ensures
        r == glob_like(value@),
{
    contains_char(value, '*') || contains_char(value, '?') || contains_char(value, '[')
}

/// The first value that looks like a glob.
pub open spec fn first_glob_like(values: Seq<String>) -> Option<Seq<char>>
    decreases values.len(),
{
    if values.len() == 0 {
        None
    } else {
        match first_glob_like(values.drop_last()) {
            Some(value) => Some(value),
            None => if glob_like(values.last()@) {
                Some(values.last()@)
            } else {
                None
            },
        }
    }
}

/// The warning about a filter that looks like a glob.
pub open spec fn filter_warning(included: Seq<String>, excluded: Seq<String>) -> Option<Seq<char>> {
    match first_glob_like(included + excluded) {
        Some(value) => Some(
            "warning: include/exclude use substring matching, not glob matching; use include_globs/exclude_globs for patterns like `"@
                + value + "`"@,
        ),
        None => None,
    }
}

pub proof fn lemma_first_glob_like(values: Seq<String>, i: int)
    requires
        0 <= i < values.len(),
        glob_like(values[i]@),
        forall|j: int| 0 <= j < i ==> !glob_like((#[trigger] values[j])@),
    ensures
        first_glob_like(values) == Some(values[i]@),
    decreases values.len(),
{
    if i < values.len() - 1 {
        lemma_first_glob_like(values.drop_last(), i);
    } else {
        lemma_no_glob_like(values.drop_last());
    }
}

pub proof fn lemma_no_glob_like(values: Seq<String>)
    requires
        forall|j: int| 0 <= j < values.len() ==> !glob_like((#[trigger] values[j])@),
    ensures
        first_glob_like(values) is None,
    decreases values.len(),
{
    if values.len() > 0 {
        lemma_no_glob_like(values.drop_last());
    }
}

fn find_glob_like(values: &[String]) -> (r: Option<usize>)
    ensures
        match r {
            Some(i) => i < values@.len() && glob_like(values@[i as int]@) && forall|j: int|
                0 <= j < i ==> !glob_like((#[trigger] values@[j])@),
            None => forall|j: int| 0 <= j < values@.len() ==> !glob_like((#[trigger] values@[j])@),
        },
{
    let mut i: usize = 0;
    while i < values.len()
        invariant
            i <= values@.len(),
            forall|j: int| 0 <= j < i ==> !glob_like((#[trigger] values@[j])@),
        decreases values@.len() - i,
    {
        if looks_like_glob(values[i].as_str()) {
            return Some(i);
        }
        i += 1;
    }
    None
}

fn glob_warning(value: &str) -> (r: String)
    ensures
        r@
            == "warning: include/exclude use substring matching, not glob matching; use include_globs/exclude_globs for patterns like `"@
            + value@ + "`"@,
{
    let mut out = owned(
        "warning: include/exclude use substring matching, not glob matching; use include_globs/exclude_globs for patterns like `",
    );
    out.append(value);
    out.append("`");
    out
}

/// Warns about the first filter that looks like a glob.
pub fn glob_filter_warning(included: &[String], excluded: &[String]) -> (r: Option<String>)
    ensures
        text_of(r) == filter_warning(included@, excluded@),
{
    let ghost all = included@ + excluded@;
    match find_glob_like(included) {
        Some(i) => {
            proof {
                assert(all[i as int] == included@[i as int]);
                lemma_first_glob_like(all, i as int);
            }
            Some(glob_warning(included[i].as_str()))
        },
        None => match find_glob_like(excluded) {
            Some(i) => {
                proof {
                    let at = included@.len() + i;
                    assert(all[at] == excluded@[i as int]);
                    assert forall|j: int| 0 <= j < at implies !glob_like((#[trigger] all[j])@) by {
                        if j >= included@.len() {
                            assert(all[j] == excluded@[j - included@.len()]);
                        } else {
                            assert(all[j] == included@[j]);
                        }
                    }
                    lemma_first_glob_like(all, at);
                }
                Some(glob_warning(excluded[i].as_str()))
            },
            None => {
                proof {
                    assert forall|j: int| 0 <= j < all.len() implies !glob_like(
                        (#[trigger] all[j])@,
                    ) by {
                        if j >= included@.len() {
                            assert(all[j] == excluded@[j - included@.len()]);
                        } else {
                            assert(all[j] == included@[j]);
                        }
                    }
                    lemma_no_glob_like(all);
                }
                None
            },
        },
    }
}

/// The directories that no search goes into.
pub open spec fn excluded_name(name: Seq<char>) -> bool {
    name == ".git"@ || name == ".hg"@ || name == ".svn"@ || name == "node_modules"@ || name
        == "target"@ || name == "dist"@ || name == "build"@ || name == ".next"@
}

/// Whether a directory of this name is one that no search goes into.
pub fn is_default_excluded_dir(name: Option<&str>) -> (r: bool)
    ensures
        r == (name matches Some(text) && excluded_name(text@)),
{
    match name {
        Some(text) => text_eq(text, ".git") || text_eq(text, ".hg") || text_eq(text, ".svn")
            || text_eq(text, "node_modules") || text_eq(text, "target") || text_eq(text, "dist")
            || text_eq(text, "build") || text_eq(text, ".next"),
        None => false,
    }
}

/// The text with each backslash turned into a slash.
pub open spec fn forward(text: Seq<char>) -> Seq<char> {
    Seq::new(
        text.len(),
        |i: int|
            if text[i] == '\\' {
                '/'
            } else {
                text[i]
            },
    )
}

/// Turns each backslash of a shown path into a slash.
pub fn path_to_forward_slashes(path: &str) -> (r: String)
    ensures
        r@ == forward(path@),
{
    let chars = to_chars(path);
    let mut out = String::new();
    let mut i: usize = 0;
    assert(out@ =~= forward(path@).take(0));
    while i < chars.len()
        invariant
            i <= chars@.len(),
            chars@ == path@,
            out@ == forward(path@).take(i as int),
        decreases chars@.len() - i,
    {
        if chars[i] == '\\' {
            out.push('/');
        } else {
            out.push(chars[i]);
        }
        assert(forward(path@).take(i + 1) =~= forward(path@).take(i as int).push(
            forward(path@)[i as int],
        ));
        i += 1;
    }
    assert(forward(path@).take(path@.len() as int) =~= forward(path@));
    out
}

/// The first place from `from` on that holds `c`.
pub open spec fn next_place(text: Seq<char>, c: char, from: int) -> Option<int>
    decreases text.len() - from,
{
    if from < 0 || from >= text.len() {
        None
    } else if text[from] == c {
        Some(from)
    } else {
        next_place(text, c, from + 1)
    }
}

/// The places from `from` on at which the characters of the needle are found, each as early as
/// possible.
pub open spec fn found_places(text: Seq<char>, needle: Seq<char>, from: int) -> Option<Seq<int>>
    decreases needle.len(),
{
    if needle.len() == 0 {
        Some(Seq::empty())
    } else {
        match next_place(text, needle[0], from) {
            Some(at) => match found_places(text, needle.skip(1), at + 1) {
                Some(rest) => Some(seq![at] + rest),
                None => None,
            },
            None => None,
        }
    }
}

/// How far apart the found characters stand, less how many there are; in 32 bits.
pub open spec fn spread(places: Seq<int>) -> i32 {
    let span = if places.len() == 0 {
        0int
    } else {
        places.last() - places[0]
    };
    ((span as usize) as i32).wrapping_sub((places.len() as usize) as i32)
}

/// The score of a search: lower is better, and the empty needle comes last.
pub open spec fn score_of(haystack: Seq<char>, needle: Seq<char>) -> Option<i32> {
    if needle.len() == 0 {
        Some(i32::MAX)
    } else {
        spread_of(lowercase(haystack), lowercase(needle))
    }
}

/// The score of two lowercase texts.
pub open spec fn spread_of(text: Seq<char>, needle: Seq<char>) -> Option<i32> {
    match found_places(text, needle, 0) {
        Some(places) => Some(spread(places)),
        None => None,
    }
}

fn find_char(text: &[char], c: char, from: usize) -> (r: Option<usize>)
    ensures
        match next_place(text@, c, from as int) {
            Some(at) => r matches Some(got) && got == at && from <= at < text@.len() && text@[at]
                == c,
            None => r is None,
        },
{
    let mut i: usize = from;
    while i < text.len()
        invariant
            from <= i,
            next_place(text@, c, from as int) == next_place(text@, c, i as int),
        decreases text@.len() - i,
    {
        if text[i] == c {
            return Some(i);
        }
        i += 1;
    }
    None
}

/// The score of two lowercase texts: the distance from the first to the last found character, less
/// the length of the needle.
pub fn fuzzy_spread(text: &str, needle: &str) -> (r: Option<i32>)
    ensures
        r == spread_of(text@, needle@),
{
    let chars = to_chars(text);
    let wanted = to_chars(needle);
    let total: usize = chars.len();
    let count: usize = wanted.len();
    let mut first: usize = 0;
    let mut last: usize = 0;
    let mut from: usize = 0;
    let mut k: usize = 0;
    let ghost places = Seq::<int>::empty();
    proof {
        assert(wanted@.skip(0) =~= wanted@);
    }
    while k < count
        invariant
            k <= count == wanted@.len(),
            total == chars@.len(),
            from <= total,
            chars@ == text@,
            wanted@ == needle@,
            places.len() == k,
            k > 0 ==> places[0] == first && places.last() == last && first <= last < total,
            k == 0 ==> first == 0 && last == 0 && from == 0,
            k > 0 ==> from == last + 1,
            match found_places(text@, wanted@.skip(k as int), from as int) {
                Some(rest) => found_places(text@, needle@, 0) == Some(places + rest),
                None => found_places(text@, needle@, 0) is None,
            },
        decreases count - k,
    {
        let ghost rest = wanted@.skip(k as int);
        assert(rest[0] == wanted@[k as int]);
        assert(rest.skip(1) =~= wanted@.skip(k + 1));
        match find_char(chars.as_slice(), wanted[k], from) {
            Some(at) => {
                proof {
                    let next = places.push(at as int);
                    if let Some(more) = found_places(text@, rest.skip(1), at + 1) {
                        assert(places + (seq![at as int] + more) =~= next + more);
                    }
                    places = next;
                }
                if k == 0 {
                    first = at;
                }
                last = at;
                from = at + 1;
            },
            None => return None,
        }
        k += 1;
    }
    proof {
        let rest = wanted@.skip(count as int);
        assert(rest.len() == 0);
        assert(places + Seq::<int>::empty() =~= places);
    }
    let span: usize = last - first;
    Some((span as i32).wrapping_sub(count as i32))
}

/// Scores a path against a query that was typed: all characters of the query must occur in order,
/// in either case. Lower is better.
pub fn fuzzy_score(haystack: &str, needle: &str) -> (r: Option<i32>)
    ensures
        r == score_of(haystack@, needle@),
{
    if needle.is_empty() {
        return Some(i32::MAX);
    }
    fuzzy_spread(to_lowercase(haystack).as_str(), to_lowercase(needle).as_str())
}

/// Whether `places` are ascending places from `from` on that spell the needle.
pub open spec fn spells(text: Seq<char>, needle: Seq<char>, places: Seq<int>, from: int) -> bool {
    &&& places.len() == needle.len()
    &&& forall|i: int|
        0 <= i < places.len() ==> from <= #[trigger] places[i] < text.len() && text[places[i]]
            == needle[i]
    &&& forall|i: int, j: int| 0 <= i < j < places.len() ==> #[trigger] places[i] < #[trigger] places[j]
}

pub proof fn lemma_next_place(text: Seq<char>, c: char, from: int)
    requires
        0 <= from,
    ensures
        match next_place(text, c, from) {
            Some(at) => from <= at < text.len() && text[at] == c && forall|i: int|
                from <= i < at ==> text[i] != c,
            None => forall|i: int| from <= i < text.len() ==> text[i] != c,
        },
    decreases text.len() - from,
{
    if from < text.len() && text[from] != c {
        lemma_next_place(text, c, from + 1);
    }
}

proof fn lemma_found_places(text: Seq<char>, needle: Seq<char>, from: int)
    requires
        0 <= from,
    ensures
        found_places(text, needle, from) matches Some(places) ==> spells(text, needle, places, from),
    decreases needle.len(),
{
    if needle.len() > 0 {
        lemma_next_place(text, needle[0], from);
        if let Some(at) = next_place(text, needle[0], from) {
            lemma_found_places(text, needle.skip(1), at + 1);
            if let Some(rest) = found_places(text, needle.skip(1), at + 1) {
                let places = seq![at] + rest;
                assert forall|i: int| 0 <= i < places.len() implies from <= #[trigger] places[i]
                    < text.len() && text[places[i]] == needle[i] by {
                    if i > 0 {
                        assert(places[i] == rest[i - 1]);
                        assert(needle[i] == needle.skip(1)[i - 1]);
                    }
                }
                assert forall|i: int, j: int| 0 <= i < j < places.len() implies #[trigger] places[i]
                    < #[trigger] places[j] by {
                    assert(places[j] == rest[j - 1]);
                    if i > 0 {
                        assert(places[i] == rest[i - 1]);
                    }
                }
            }
        }
    }
}

proof fn lemma_spelling_is_found(
    text: Seq<char>,
    needle: Seq<char>,
    places: Seq<int>,
    from: int,
    start: int,
)
    requires
        0 <= from <= start,
        spells(text, needle, places, start),
    ensures
        found_places(text, needle, from) is Some,
    decreases needle.len(),
{
    if needle.len() > 0 {
        lemma_next_place(text, needle[0], from);
        assert(text[places[0]] == needle[0]);
        let at = next_place(text, needle[0], from)->0;
        let rest = places.skip(1);
        assert(spells(text, needle.skip(1), rest, places[0] + 1)) by {
            assert forall|i: int| 0 <= i < rest.len() implies places[0] + 1 <= #[trigger] rest[i]
                < text.len() && text[rest[i]] == needle.skip(1)[i] by {
                assert(rest[i] == places[i + 1]);
                assert(places[0] < places[i + 1]);
            }
            assert forall|i: int, j: int| 0 <= i < j < rest.len() implies #[trigger] rest[i]
                < #[trigger] rest[j] by {
                assert(places[i + 1] < places[j + 1]);
            }
        }
        lemma_spelling_is_found(text, needle.skip(1), rest, at + 1, places[0] + 1);
    }
}

/// A search finds a text exactly where the characters of the needle occur in it in order.
pub proof fn law_search_finds_subsequences(text: Seq<char>, needle: Seq<char>)
    ensures
        spread_of(text, needle) is Some <==> exists|places: Seq<int>|
            spells(text, needle, places, 0),
{
    lemma_found_places(text, needle, 0);
    if let Some(places) = found_places(text, needle, 0) {
        assert(spells(text, needle, places, 0));
    }
    if exists|places: Seq<int>| spells(text, needle, places, 0) {
        let places = choose|places: Seq<int>| spells(text, needle, places, 0);
        lemma_spelling_is_found(text, needle, places, 0, 0);
    }
}

} // verus!
