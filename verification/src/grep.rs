//! Searching the lines of files.
use vstd::prelude::*;
use vstd::string::*;

use crate::change::{content_hash, hash_of};
use crate::outside::{regex_is_match, regex_matches};
use crate::text::{decimal, decimal_usize, lines, lines_of, owned, texts};

verus! {

/// The lines of a file that a search showed.
#[derive(Debug, PartialEq, Eq)]
pub struct FileLineObservation<P> {
    pub path: P,
    pub content_hash: String,
    pub lines: Vec<usize>,
}

/// A line around a match.
#[derive(Debug, PartialEq, Eq)]
pub struct GrepContextLine {
    pub line: usize,
    pub text: String,
}

/// A matching line and the lines around it.
#[derive(Debug, PartialEq, Eq)]
pub struct GrepMatch {
    pub path: String,
    pub line: usize,
    pub text: String,
    pub context_before: Vec<GrepContextLine>,
    pub context_after: Vec<GrepContextLine>,
}

/// A matching line and the lines around it.
pub struct MatchModel {
    pub path: Seq<char>,
    pub line: usize,
    pub text: Seq<char>,
    pub before: Seq<(usize, Seq<char>)>,
    pub after: Seq<(usize, Seq<char>)>,
}

/// Lines as plain values.
pub open spec fn context_model(lines: Seq<GrepContextLine>) -> Seq<(usize, Seq<char>)> {
    Seq::new(lines.len(), |i: int| (lines[i].line, lines[i].text@))
}

impl GrepMatch {
    pub open spec fn model(self) -> MatchModel {
        MatchModel {
            path: self.path@,
            line: self.line,
            text: self.text@,
            before: context_model(self.context_before@),
            after: context_model(self.context_after@),
        }
    }
}

/// Matches as plain values.
pub open spec fn match_models(matches: Seq<GrepMatch>) -> Seq<MatchModel> {
    Seq::new(matches.len(), |i: int| matches[i].model())
}

/// The first line shown around line `index`.
pub open spec fn context_start(index: int, context: int) -> int {
    if index > context {
        index - context
    } else {
        0
    }
}

/// The line after the last one shown around line `index`.
pub open spec fn context_end(index: int, context: int, total: int) -> int {
    if index + context + 1 < total {
        index + context + 1
    } else {
        total
    }
}

/// Lines `from` up to `to`, numbered from 1.
pub open spec fn numbered_lines(lines: Seq<Seq<char>>, from: int, to: int) -> Seq<
    (usize, Seq<char>),
> {
    Seq::new((to - from) as nat, |i: int| ((from + i + 1) as usize, lines[from + i]))
}

/// The numbers of lines `from` up to `to`.
pub open spec fn numbers(from: int, to: int) -> Seq<usize> {
    Seq::new((to - from) as nat, |i: int| (from + i + 1) as usize)
}

/// A line as a search shows it: path, number and text.
pub open spec fn shown_match(path: Seq<char>, line: (usize, Seq<char>)) -> Seq<char> {
    path + ":"@ + decimal(line.0 as nat) + ":"@ + line.1
}

/// Lines as a search shows them.
pub open spec fn shown_matches(path: Seq<char>, lines: Seq<(usize, Seq<char>)>) -> Seq<Seq<char>> {
    Seq::new(lines.len(), |i: int| shown_match(path, lines[i]))
}

/// What a search of one file has found so far: what it lists, the numbers of the lines that it
/// shows, how many matching lines it took, and whether the limit keeps it from taking more.
pub struct Found<M> {
    pub matches: Seq<M>,
    pub observed: Seq<usize>,
    pub taken: nat,
    pub full: bool,
}

/// One more matching line, shown as text with the lines around it, unless the limit is reached.
pub open spec fn text_found(
    before: Found<Seq<char>>,
    path: Seq<char>,
    lines: Seq<Seq<char>>,
    index: int,
    context: int,
    limit: int,
) -> Found<Seq<char>> {
    let from = context_start(index, context);
    let to = context_end(index, context, lines.len() as int);
    let matches = before.matches + shown_matches(path, numbered_lines(lines, from, to));
    if before.matches.len() >= limit {
        Found { full: true, ..before }
    } else {
        Found {
            matches,
            observed: before.observed + numbers(from, to),
            taken: before.taken + 1,
            full: matches.len() >= limit,
        }
    }
}

/// What the first `count` lines give as text; `hits` says which lines match.
pub open spec fn text_search(
    earlier: Seq<Seq<char>>,
    path: Seq<char>,
    lines: Seq<Seq<char>>,
    hits: Seq<bool>,
    context: int,
    limit: int,
    count: nat,
) -> Found<Seq<char>>
    decreases count,
{
    if count == 0 {
        Found { matches: earlier, observed: Seq::empty(), taken: 0, full: false }
    } else {
        let last = (count - 1) as nat;
        let before = text_search(earlier, path, lines, hits, context, limit, last);
        if before.full || !hits[last as int] {
            before
        } else {
            text_found(before, path, lines, last as int, context, limit)
        }
    }
}

/// A matching line with the lines around it.
pub open spec fn match_at(
    path: Seq<char>,
    lines: Seq<Seq<char>>,
    index: int,
    context: int,
) -> MatchModel {
    MatchModel {
        path,
        line: (index + 1) as usize,
        text: lines[index],
        before: numbered_lines(lines, context_start(index, context), index),
        after: numbered_lines(lines, index + 1, context_end(index, context, lines.len() as int)),
    }
}

/// One more matching line, with the lines around it, unless the limit is reached.
pub open spec fn match_found(
    before: Found<MatchModel>,
    path: Seq<char>,
    lines: Seq<Seq<char>>,
    index: int,
    context: int,
    limit: int,
) -> Found<MatchModel> {
    let matches = before.matches.push(match_at(path, lines, index, context));
    if before.matches.len() >= limit {
        Found { full: true, ..before }
    } else {
        Found {
            matches,
            observed: (before.observed + numbers(context_start(index, context), index) + numbers(
                index + 1,
                context_end(index, context, lines.len() as int),
            )).push((index + 1) as usize),
            taken: before.taken + 1,
            full: matches.len() >= limit,
        }
    }
}

/// What the first `count` lines give as matches; `hits` says which lines match.
pub open spec fn match_search(
    earlier: Seq<MatchModel>,
    path: Seq<char>,
    lines: Seq<Seq<char>>,
    hits: Seq<bool>,
    context: int,
    limit: int,
    count: nat,
) -> Found<MatchModel>
    decreases count,
{
    if count == 0 {
        Found { matches: earlier, observed: Seq::empty(), taken: 0, full: false }
    } else {
        let last = (count - 1) as nat;
        let before = match_search(earlier, path, lines, hits, context, limit, last);
        if before.full || !hits[last as int] {
            before
        } else {
            match_found(before, path, lines, last as int, context, limit)
        }
    }
}

/// Which lines a regex matches.
pub open spec fn line_hits(
    pattern: Seq<char>,
    case_insensitive: bool,
    lines: Seq<Seq<char>>,
) -> Seq<bool> {
    Seq::new(lines.len(), |i: int| regex_matches(pattern, case_insensitive, lines[i]))
}

/// Which lines a regex matches.
pub fn matching_lines(pattern: &str, case_insensitive: bool, lines: &[String]) -> (r: Vec<bool>)
    ensures
        r@ == line_hits(pattern@, case_insensitive, texts(lines@)),
{
    let ghost wanted = line_hits(pattern@, case_insensitive, texts(lines@));
    let mut out: Vec<bool> = Vec::new();
    let mut i: usize = 0;
    while i < lines.len()
        invariant
            i <= lines@.len(),
            wanted == line_hits(pattern@, case_insensitive, texts(lines@)),
            out@ == wanted.take(i as int),
        decreases lines@.len() - i,
    {
        out.push(regex_is_match(pattern, case_insensitive, lines[i].as_str()));
        assert(wanted.take(i + 1) =~= wanted.take(i as int).push(wanted[i as int]));
        i += 1;
    }
    assert(wanted.take(lines@.len() as int) =~= wanted);
    out
}

fn first_shown(index: usize, context: usize) -> (r: usize)
    ensures
        r == context_start(index as int, context as int),
{
    if index > context {
        index - context
    } else {
        0
    }
}

fn after_shown(index: usize, context: usize, total: usize) -> (r: usize)
    requires
        index < total,
    ensures
        r == context_end(index as int, context as int, total as int),
{
    if context < total - index - 1 {
        index + context + 1
    } else {
        total
    }
}

fn push_numbers(out: &mut Vec<usize>, from: usize, to: usize)
    requires
        from <= to,
    ensures
        final(out)@ == old(out)@ + numbers(from as int, to as int),
{
    let mut i: usize = from;
    assert(out@ =~= old(out)@ + numbers(from as int, from as int));
    while i < to
        invariant
            from <= i <= to,
            out@ == old(out)@ + numbers(from as int, i as int),
        decreases to - i,
    {
        out.push(i + 1);
        assert(numbers(from as int, i + 1) =~= numbers(from as int, i as int).push(
            (i + 1) as usize,
        ));
        assert(out@ =~= old(out)@ + numbers(from as int, i + 1));
        i += 1;
    }
}

fn push_shown(out: &mut Vec<String>, path: &str, lines: &[String], from: usize, to: usize)
    requires
        from <= to <= lines@.len(),
    ensures
        texts(final(out)@) == texts(old(out)@) + shown_matches(
            path@,
            numbered_lines(texts(lines@), from as int, to as int),
        ),
{
    let total: usize = lines.len();
    let ghost all = texts(lines@);
    let mut i: usize = from;
    assert(texts(out@) =~= texts(old(out)@) + shown_matches(
        path@,
        numbered_lines(all, from as int, from as int),
    ));
    while i < to
        invariant
            from <= i <= to <= lines@.len() == total,
            all == texts(lines@),
            texts(out@) == texts(old(out)@) + shown_matches(
                path@,
                numbered_lines(all, from as int, i as int),
            ),
        decreases to - i,
    {
        let ghost before = out@;
        let mut shown = owned(path);
        shown.append(":");
        shown.append(decimal_usize(i + 1).as_str());
        shown.append(":");
        shown.append(lines[i].as_str());
        out.push(shown);
        proof {
            assert(texts(out@) =~= texts(before).push(shown@));
            assert(numbered_lines(all, from as int, i + 1) =~= numbered_lines(
                all,
                from as int,
                i as int,
            ).push(((i + 1) as usize, all[i as int])));
            assert(shown_matches(path@, numbered_lines(all, from as int, i + 1)) =~= shown_matches(
                path@,
                numbered_lines(all, from as int, i as int),
            ).push(shown@));
            assert(texts(out@) =~= texts(old(out)@) + shown_matches(
                path@,
                numbered_lines(all, from as int, i + 1),
            ));
        }
        i += 1;
    }
}

proof fn lemma_text_search_full(
    earlier: Seq<Seq<char>>,
    path: Seq<char>,
    lines: Seq<Seq<char>>,
    hits: Seq<bool>,
    context: int,
    limit: int,
    count: nat,
    all: nat,
)
    requires
        count <= all,
        text_search(earlier, path, lines, hits, context, limit, count).full,
    ensures
        text_search(earlier, path, lines, hits, context, limit, all) == text_search(
            earlier,
            path,
            lines,
            hits,
            context,
            limit,
            count,
        ),
    decreases all,
{
    if count < all {
        lemma_text_search_full(
            earlier,
            path,
            lines,
            hits,
            context,
            limit,
            count,
            (all - 1) as nat,
        );
    }
}

proof fn lemma_match_search_full(
    earlier: Seq<MatchModel>,
    path: Seq<char>,
    lines: Seq<Seq<char>>,
    hits: Seq<bool>,
    context: int,
    limit: int,
    count: nat,
    all: nat,
)
    requires
        count <= all,
        match_search(earlier, path, lines, hits, context, limit, count).full,
    ensures
        match_search(earlier, path, lines, hits, context, limit, all) == match_search(
            earlier,
            path,
            lines,
            hits,
            context,
            limit,
            count,
        ),
    decreases all,
{
    if count < all {
        lemma_match_search_full(
            earlier,
            path,
            lines,
            hits,
            context,
            limit,
            count,
            (all - 1) as nat,
        );
    }
}

/// Shows the matching lines of one file with the lines around them, until the limit is reached.
/// Returns the numbers of the shown lines, and whether the limit is reached.
pub fn grep_text_lines(
    path: &str,
    lines: &[String],
    hits: &[bool],
    context: usize,
    limit: usize,
    matches: &mut Vec<String>,
) -> (r: (Vec<usize>, bool))
    requires
        hits@.len() == lines@.len(),
    ensures
        ({
            let found = text_search(
                texts(old(matches)@),
                path@,
                texts(lines@),
                hits@,
                context as int,
                limit as int,
                lines@.len(),
            );
            &&& texts(final(matches)@) == found.matches
            &&& r.0@ == found.observed
            &&& r.1 == found.full
        }),
{
    let total: usize = lines.len();
    let ghost all = texts(lines@);
    let ghost earlier = texts(matches@);
    let mut observed: Vec<usize> = Vec::new();
    let ghost mut taken: nat = 0;
    let mut index: usize = 0;
    assert(observed@ =~= Seq::<usize>::empty());
    while index < total
        invariant
            index <= total == lines@.len(),
            hits@.len() == total,
            all == texts(lines@),
            all.len() == total,
            earlier == texts(old(matches)@),
            text_search(earlier, path@, all, hits@, context as int, limit as int, index as nat) == (
            Found { matches: texts(matches@), observed: observed@, taken, full: false }),
        decreases total - index,
    {
        if hits[index] {
            assert(texts(matches@).len() == matches@.len());
            if matches.len() >= limit {
                proof {
                    lemma_text_search_full(
                        earlier,
                        path@,
                        all,
                        hits@,
                        context as int,
                        limit as int,
                        (index + 1) as nat,
                        total as nat,
                    );
                }
                return (observed, true);
            }
            proof {
                taken = taken + 1;
            }
            let start = first_shown(index, context);
            let end = after_shown(index, context, total);
            push_shown(matches, path, lines, start, end);
            push_numbers(&mut observed, start, end);
            assert(texts(matches@).len() == matches@.len());
            if matches.len() >= limit {
                proof {
                    lemma_text_search_full(
                        earlier,
                        path@,
                        all,
                        hits@,
                        context as int,
                        limit as int,
                        (index + 1) as nat,
                        total as nat,
                    );
                }
                return (observed, true);
            }
        }
        index += 1;
    }
    (observed, false)
}

fn context_lines(lines: &[String], from: usize, to: usize) -> (r: Vec<GrepContextLine>)
    requires
        from <= to <= lines@.len(),
    ensures
        context_model(r@) == numbered_lines(texts(lines@), from as int, to as int),
{
    let total: usize = lines.len();
    let ghost all = texts(lines@);
    let mut out: Vec<GrepContextLine> = Vec::new();
    let mut i: usize = from;
    assert(context_model(out@) =~= numbered_lines(all, from as int, from as int));
    while i < to
        invariant
            from <= i <= to <= lines@.len() == total,
            all == texts(lines@),
            context_model(out@) == numbered_lines(all, from as int, i as int),
        decreases to - i,
    {
        let ghost before = out@;
        let line = GrepContextLine { line: i + 1, text: owned(lines[i].as_str()) };
        out.push(line);
        assert(context_model(out@) =~= context_model(before).push(
            ((i + 1) as usize, all[i as int]),
        ));
        assert(numbered_lines(all, from as int, i + 1) =~= numbered_lines(
            all,
            from as int,
            i as int,
        ).push(((i + 1) as usize, all[i as int])));
        i += 1;
    }
    out
}

/// Lists the matching lines of one file with the lines around them, until the limit is reached.
/// Returns the numbers of the listed lines, and whether the limit is reached.
pub fn grep_structured_lines(
    path: &str,
    lines: &[String],
    hits: &[bool],
    context: usize,
    limit: usize,
    matches: &mut Vec<GrepMatch>,
) -> (r: (Vec<usize>, bool))
    requires
        hits@.len() == lines@.len(),
    ensures
        ({
            let found = match_search(
                match_models(old(matches)@),
                path@,
                texts(lines@),
                hits@,
                context as int,
                limit as int,
                lines@.len(),
            );
            &&& match_models(final(matches)@) == found.matches
            &&& r.0@ == found.observed
            &&& r.1 == found.full
        }),
{
    let total: usize = lines.len();
    let ghost all = texts(lines@);
    let ghost earlier = match_models(matches@);
    let mut observed: Vec<usize> = Vec::new();
    let ghost mut taken: nat = 0;
    let mut index: usize = 0;
    assert(observed@ =~= Seq::<usize>::empty());
    while index < total
        invariant
            index <= total == lines@.len(),
            hits@.len() == total,
            all == texts(lines@),
            all.len() == total,
            earlier == match_models(old(matches)@),
            match_search(
                earlier,
                path@,
                all,
                hits@,
                context as int,
                limit as int,
                index as nat,
            ) == (Found {
                matches: match_models(matches@),
                observed: observed@,
                taken,
                full: false,
            }),
        decreases total - index,
    {
        if hits[index] {
            assert(match_models(matches@).len() == matches@.len());
            if matches.len() >= limit {
                proof {
                    lemma_match_search_full(
                        earlier,
                        path@,
                        all,
                        hits@,
                        context as int,
                        limit as int,
                        (index + 1) as nat,
                        total as nat,
                    );
                }
                return (observed, true);
            }
            proof {
                taken = taken + 1;
            }
            let before_start = first_shown(index, context);
            let context_before = context_lines(lines, before_start, index);
            push_numbers(&mut observed, before_start, index);
            let after_end = after_shown(index, context, total);
            let context_after = context_lines(lines, index + 1, after_end);
            push_numbers(&mut observed, index + 1, after_end);
            observed.push(index + 1);
            let ghost held = matches@;
            let found = GrepMatch {
                path: owned(path),
                line: index + 1,
                text: owned(lines[index].as_str()),
                context_before,
                context_after,
            };
            assert(found.model() == match_at(path@, all, index as int, context as int));
            matches.push(found);
            assert(match_models(matches@) =~= match_models(held).push(found.model()));
            if matches.len() >= limit {
                proof {
                    lemma_match_search_full(
                        earlier,
                        path@,
                        all,
                        hits@,
                        context as int,
                        limit as int,
                        (index + 1) as nat,
                        total as nat,
                    );
                }
                return (observed, true);
            }
        }
        index += 1;
    }
    (observed, false)
}

/// Notes the lines of a file that a search showed, if it showed any.
pub fn push_file_line_observation<P>(
    observations: &mut Vec<FileLineObservation<P>>,
    path: P,
    text: &str,
    lines: Vec<usize>,
)
    ensures
        if lines@.len() == 0 {
            final(observations)@ == old(observations)@
        } else {
            &&& final(observations)@.len() == old(observations)@.len() + 1
            &&& final(observations)@.drop_last() == old(observations)@
            &&& final(observations)@.last().path == path
            &&& final(observations)@.last().content_hash@ == hash_of(text@)
            &&& final(observations)@.last().lines@ == lines@
        },
{
    if lines.len() == 0 {
        return ;
    }
    let ghost before = observations@;
    observations.push(FileLineObservation { path, content_hash: content_hash(text), lines });
    assert(observations@.drop_last() =~= before);
}

/// What to search for, and how much to show.
#[derive(Debug, PartialEq, Eq)]
pub struct GrepCollectOptions {
    pub pattern: String,
    pub case_insensitive: bool,
    pub context: usize,
    pub limit: usize,
}

/// What a search adds to the observations: the shown lines of the file, if any were shown.
pub open spec fn observes<P>(
    before: Seq<FileLineObservation<P>>,
    after: Seq<FileLineObservation<P>>,
    path: P,
    text: Seq<char>,
    lines: Seq<usize>,
) -> bool {
    if lines.len() == 0 {
        after == before
    } else {
        &&& after.len() == before.len() + 1
        &&& after.drop_last() == before
        &&& after.last().path == path
        &&& after.last().content_hash@ == hash_of(text)
        &&& after.last().lines@ == lines
    }
}

/// Searches one file and shows the matching lines as text. Returns whether the limit is reached.
pub fn grep_text_file<P>(
    path: P,
    shown: &str,
    text: &str,
    options: &GrepCollectOptions,
    matches: &mut Vec<String>,
    observations: &mut Vec<FileLineObservation<P>>,
) -> (r: bool)
    ensures
        ({
            let all = lines_of(text@);
            let found = text_search(
                texts(old(matches)@),
                shown@,
                all,
                line_hits(options.pattern@, options.case_insensitive, all),
                options.context as int,
                options.limit as int,
                all.len(),
            );
            &&& texts(final(matches)@) == found.matches
            &&& observes(
                old(observations)@,
                final(observations)@,
                path,
                text@,
                found.observed,
            )
            &&& r == found.full
        }),
{
    let all = lines(text);
    assert(texts(all@).len() == all@.len());
    let hits = matching_lines(options.pattern.as_str(), options.case_insensitive, all.as_slice());
    let (observed, full) = grep_text_lines(
        shown,
        all.as_slice(),
        hits.as_slice(),
        options.context,
        options.limit,
        matches,
    );
    push_file_line_observation(observations, path, text, observed);
    full
}

/// Searches one file and lists the matching lines. Returns whether the limit is reached.
pub fn grep_structured_file<P>(
    path: P,
    shown: &str,
    text: &str,
    options: &GrepCollectOptions,
    matches: &mut Vec<GrepMatch>,
    observations: &mut Vec<FileLineObservation<P>>,
) -> (r: bool)
    ensures
        ({
            let all = lines_of(text@);
            let found = match_search(
                match_models(old(matches)@),
                shown@,
                all,
                line_hits(options.pattern@, options.case_insensitive, all),
                options.context as int,
                options.limit as int,
                all.len(),
            );
            &&& match_models(final(matches)@) == found.matches
            &&& observes(
                old(observations)@,
                final(observations)@,
                path,
                text@,
                found.observed,
            )
            &&& r == found.full
        }),
{
    let all = lines(text);
    assert(texts(all@).len() == all@.len());
    let hits = matching_lines(options.pattern.as_str(), options.case_insensitive, all.as_slice());
    let (observed, full) = grep_structured_lines(
        shown,
        all.as_slice(),
        hits.as_slice(),
        options.context,
        options.limit,
        matches,
    );
    push_file_line_observation(observations, path, text, observed);
    full
}

/// A search takes no more matching lines than its limit allows, whatever the limit is: `earlier`
/// holds what the `taken` lines show that were taken in other files.
pub proof fn law_shown_matches_keep_the_limit(
    earlier: Seq<Seq<char>>,
    taken: nat,
    path: Seq<char>,
    lines: Seq<Seq<char>>,
    hits: Seq<bool>,
    context: int,
    limit: int,
    count: nat,
)
    requires
        count <= lines.len(),
        0 <= context,
        taken <= earlier.len(),
        taken <= limit,
    ensures
        ({
            let found = text_search(earlier, path, lines, hits, context, limit, count);
            &&& taken + found.taken <= found.matches.len()
            &&& taken + found.taken <= limit
        }),
    decreases count,
{
    if count > 0 {
        law_shown_matches_keep_the_limit(
            earlier,
            taken,
            path,
            lines,
            hits,
            context,
            limit,
            (count - 1) as nat,
        );
    }
}

/// A search lists one match for each matching line that it takes, and no more than its limit allows,
/// whatever the limit is.
pub proof fn law_listed_matches_keep_the_limit(
    earlier: Seq<MatchModel>,
    path: Seq<char>,
    lines: Seq<Seq<char>>,
    hits: Seq<bool>,
    context: int,
    limit: int,
    count: nat,
)
    requires
        earlier.len() <= limit,
    ensures
        ({
            let found = match_search(earlier, path, lines, hits, context, limit, count);
            &&& found.matches.len() == earlier.len() + found.taken
            &&& found.matches.len() <= limit
        }),
    decreases count,
{
    if count > 0 {
        law_listed_matches_keep_the_limit(
            earlier,
            path,
            lines,
            hits,
            context,
            limit,
            (count - 1) as nat,
        );
    }
}

/// A search that did not reach its limit lists every matching line.
pub proof fn law_every_match_is_listed(
    earlier: Seq<MatchModel>,
    path: Seq<char>,
    lines: Seq<Seq<char>>,
    hits: Seq<bool>,
    context: int,
    limit: int,
    count: nat,
    index: int,
)
    requires
        0 <= index < count <= lines.len(),
        hits.len() == lines.len(),
        hits[index],
        !match_search(earlier, path, lines, hits, context, limit, count).full,
    ensures
        match_search(earlier, path, lines, hits, context, limit, count).matches.contains(
            match_at(path, lines, index, context),
        ),
    decreases count,
{
    let last = (count - 1) as nat;
    let before = match_search(earlier, path, lines, hits, context, limit, last);
    let after = match_search(earlier, path, lines, hits, context, limit, count);
    if index < last {
        law_every_match_is_listed(earlier, path, lines, hits, context, limit, last, index);
        let k = choose|k: int|
            0 <= k < before.matches.len() && before.matches[k] == match_at(
                path,
                lines,
                index,
                context,
            );
        assert(after.matches[k] == before.matches[k]);
    } else {
        lemma_full_is_final(earlier, path, lines, hits, context, limit, last);
        assert(after.matches.last() == match_at(path, lines, index, context));
    }
}

/// A search that is full stays full.
proof fn lemma_full_is_final(
    earlier: Seq<MatchModel>,
    path: Seq<char>,
    lines: Seq<Seq<char>>,
    hits: Seq<bool>,
    context: int,
    limit: int,
    count: nat,
)
    ensures
        match_search(earlier, path, lines, hits, context, limit, count).full ==> match_search(
            earlier,
            path,
            lines,
            hits,
            context,
            limit,
            count + 1,
        ).full,
{
}

} // verus!
