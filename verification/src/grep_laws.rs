//! What a search of a file shows: every matching line with the lines around it, nothing else, and no more
//! than its limit.
use vstd::prelude::*;

use crate::grep::{
    context_end, context_start, line_hits, match_at, match_search, numbered_lines, numbers,
    shown_matches, text_search, MatchModel,
};
use crate::outside::regex_matches;
use crate::text::decimal;

verus! {

/// A line is searched for the regex by itself.
pub proof fn law_each_line_is_matched(
    pattern: Seq<char>,
    case_insensitive: bool,
    lines: Seq<Seq<char>>,
    index: int,
)
    requires
        0 <= index < lines.len(),
    ensures
        line_hits(pattern, case_insensitive, lines).len() == lines.len(),
        line_hits(pattern, case_insensitive, lines)[index] == regex_matches(
            pattern,
            case_insensitive,
            lines[index],
        ),
{
}

/// Whether line `near` stands no more than `context` lines before or behind a line that matches, which is
/// among the first `count`.
pub open spec fn is_near_a_hit(hits: Seq<bool>, count: nat, near: int, context: int) -> bool {
    exists|index: int|
        0 <= index < count && #[trigger] hits[index] && index - context <= near <= index + context
}

/// The lines of a search, in the order in which they are shown.
proof fn lemma_block(path: Seq<char>, lines: Seq<Seq<char>>, index: int, context: int)
    requires
        0 <= index < lines.len() <= usize::MAX,
        0 <= context,
    ensures
        ({
            let from = context_start(index, context);
            let to = context_end(index, context, lines.len() as int);
            let shown = shown_matches(path, numbered_lines(lines, from, to));
            let block = numbers(from, to);
            &&& 0 <= from <= index < to <= lines.len()
            &&& shown.len() == block.len() == to - from
            &&& forall|k: int|
                0 <= k < block.len() ==> {
                    &&& #[trigger] block[k] == from + k + 1
                    &&& shown[k] == path + ":"@ + decimal(block[k] as nat) + ":"@ + lines[block[k]
                        - 1]
                }
        }),
{
}

/// Each shown line is a line of the file that stands near a matching one, shown with the path and its
/// number. What was there before stays.
pub proof fn law_shown_lines_stand_near_matches(
    earlier: Seq<Seq<char>>,
    path: Seq<char>,
    lines: Seq<Seq<char>>,
    hits: Seq<bool>,
    context: int,
    limit: int,
    count: nat,
)
    requires
        count <= lines.len() == hits.len() <= usize::MAX,
        0 <= context,
    ensures
        ({
            let found = text_search(earlier, path, lines, hits, context, limit, count);
            &&& found.matches.len() == earlier.len() + found.observed.len()
            &&& found.matches.take(earlier.len() as int) == earlier
            &&& forall|k: int|
                0 <= k < found.observed.len() ==> {
                    let line = #[trigger] found.observed[k];
                    &&& 1 <= line <= lines.len()
                    &&& is_near_a_hit(hits, count, line - 1, context)
                    &&& found.matches[earlier.len() + k] == path + ":"@ + decimal(line as nat)
                        + ":"@ + lines[line - 1]
                }
        }),
    decreases count,
{
    let found = text_search(earlier, path, lines, hits, context, limit, count);
    if count > 0 {
        let last = (count - 1) as nat;
        law_shown_lines_stand_near_matches(earlier, path, lines, hits, context, limit, last);
        let before = text_search(earlier, path, lines, hits, context, limit, last);
        lemma_block(path, lines, last as int, context);
        assert forall|k: int| 0 <= k < found.observed.len() implies {
            let line = #[trigger] found.observed[k];
            &&& 1 <= line <= lines.len()
            &&& is_near_a_hit(hits, count, line - 1, context)
            &&& found.matches[earlier.len() + k] == path + ":"@ + decimal(line as nat) + ":"@
                + lines[line - 1]
        } by {
            if k < before.observed.len() {
                let line = before.observed[k];
                assert(found.observed[k] == line);
                assert(is_near_a_hit(hits, last, line - 1, context));
                let index = choose|index: int|
                    0 <= index < last && #[trigger] hits[index] && index - context <= line - 1
                        <= index + context;
                assert(hits[index]);
            } else {
                let from = context_start(last as int, context);
                let to = context_end(last as int, context, lines.len() as int);
                let at = k - before.observed.len();
                assert(found.observed[k] == numbers(from, to)[at]);
                assert(hits[last as int]);
                let line = found.observed[k];
                assert(from <= line - 1 < to);
            }
        }
        assert(found.matches.take(earlier.len() as int) =~= before.matches.take(
            earlier.len() as int,
        ));
    } else {
        assert(found.matches.take(earlier.len() as int) =~= earlier);
    }
}

/// A search that did not reach its limit shows every matching line, and every line that stands near one,
/// with the path and its number.
pub proof fn law_every_match_is_shown(
    earlier: Seq<Seq<char>>,
    path: Seq<char>,
    lines: Seq<Seq<char>>,
    hits: Seq<bool>,
    context: int,
    limit: int,
    count: nat,
    index: int,
    near: int,
)
    requires
        count <= lines.len() == hits.len() <= usize::MAX,
        0 <= context,
        !text_search(earlier, path, lines, hits, context, limit, count).full,
        0 <= index < count,
        hits[index],
        0 <= near < lines.len(),
        index - context <= near <= index + context,
    ensures
        ({
            let found = text_search(earlier, path, lines, hits, context, limit, count);
            &&& found.observed.contains((near + 1) as usize)
            &&& found.matches.contains(
                path + ":"@ + decimal((near + 1) as nat) + ":"@ + lines[near],
            )
        }),
    decreases count,
{
    let last = (count - 1) as nat;
    let before = text_search(earlier, path, lines, hits, context, limit, last);
    let found = text_search(earlier, path, lines, hits, context, limit, count);
    assert(!before.full);
    lemma_block(path, lines, last as int, context);
    law_shown_lines_stand_near_matches(earlier, path, lines, hits, context, limit, count);
    if index < last {
        law_every_match_is_shown(
            earlier,
            path,
            lines,
            hits,
            context,
            limit,
            last,
            index,
            near,
        );
        let k = choose|k: int|
            0 <= k < before.observed.len() && before.observed[k] == (near + 1) as usize;
        assert(found.observed[k] == (near + 1) as usize);
        assert(found.matches[earlier.len() + k] == path + ":"@ + decimal((near + 1) as nat) + ":"@
            + lines[near]);
    } else {
        let from = context_start(index, context);
        let to = context_end(index, context, lines.len() as int);
        assert(from <= near < to);
        let k = before.observed.len() + (near - from);
        assert(found.observed[k] == numbers(from, to)[near - from]);
        assert(found.observed[k] == (near + 1) as usize);
        assert(found.matches[earlier.len() + k] == path + ":"@ + decimal((near + 1) as nat) + ":"@
            + lines[near]);
    }
}

/// A search has reached its limit exactly where it met a matching line and shows as many lines as the limit
/// or more.
pub proof fn law_search_is_full_at_the_limit(
    earlier: Seq<Seq<char>>,
    path: Seq<char>,
    lines: Seq<Seq<char>>,
    hits: Seq<bool>,
    context: int,
    limit: int,
    count: nat,
)
    requires
        count <= lines.len() == hits.len() <= usize::MAX,
        0 <= context,
    ensures
        ({
            let found = text_search(earlier, path, lines, hits, context, limit, count);
            &&& found.full <==> found.matches.len() >= limit && (exists|index: int|
                0 <= index < count && #[trigger] hits[index])
            &&& found.observed.len() > 0 ==> exists|index: int|
                0 <= index < count && #[trigger] hits[index]
            &&& earlier.len() <= limit ==> found.matches.len() <= limit + 2 * context
        }),
    decreases count,
{
    if count > 0 {
        let last = (count - 1) as nat;
        law_search_is_full_at_the_limit(earlier, path, lines, hits, context, limit, last);
        lemma_block(path, lines, last as int, context);
        let before = text_search(earlier, path, lines, hits, context, limit, last);
        if hits[last as int] {
            assert(hits[last as int]);
        }
        if before.full {
            let index = choose|index: int| 0 <= index < last && #[trigger] hits[index];
            assert(hits[index]);
        } else if !hits[last as int] && exists|index: int| 0 <= index < count && #[trigger] hits[index] {
            let index = choose|index: int| 0 <= index < count && #[trigger] hits[index];
            assert(0 <= index < last);
        } else if before.observed.len() > 0 {
            let index = choose|index: int| 0 <= index < last && #[trigger] hits[index];
            assert(hits[index]);
        }
        law_shown_lines_stand_near_matches(earlier, path, lines, hits, context, limit, last);
    }
}

/// A higher limit shows the same lines and more behind them; the same lines where the limit was not
/// reached.
pub proof fn law_higher_limit_shows_more(
    earlier: Seq<Seq<char>>,
    path: Seq<char>,
    lines: Seq<Seq<char>>,
    hits: Seq<bool>,
    context: int,
    limit: int,
    higher: int,
    count: nat,
)
    requires
        limit <= higher,
    ensures
        ({
            let found = text_search(earlier, path, lines, hits, context, limit, count);
            let more = text_search(earlier, path, lines, hits, context, higher, count);
            &&& found.matches.len() <= more.matches.len()
            &&& found.observed.len() <= more.observed.len()
            &&& found.matches == more.matches.take(found.matches.len() as int)
            &&& found.observed == more.observed.take(found.observed.len() as int)
            &&& !found.full ==> found == more
        }),
    decreases count,
{
    let found = text_search(earlier, path, lines, hits, context, limit, count);
    let more = text_search(earlier, path, lines, hits, context, higher, count);
    if count > 0 {
        let last = (count - 1) as nat;
        law_higher_limit_shows_more(earlier, path, lines, hits, context, limit, higher, last);
    }
    assert(found.matches =~= more.matches.take(found.matches.len() as int));
    assert(found.observed =~= more.observed.take(found.observed.len() as int));
}

/// The lines around a matching line are shown one after the other, behind those of the matching lines
/// before it. A line that does not match adds nothing, and neither does any once the limit is reached.
pub proof fn law_lines_are_shown_in_order(
    earlier: Seq<Seq<char>>,
    path: Seq<char>,
    lines: Seq<Seq<char>>,
    hits: Seq<bool>,
    context: int,
    limit: int,
    index: nat,
)
    requires
        index < lines.len() == hits.len() <= usize::MAX,
        0 <= context,
    ensures
        ({
            let before = text_search(earlier, path, lines, hits, context, limit, index);
            let after = text_search(earlier, path, lines, hits, context, limit, index + 1);
            let seen = before.observed.len();
            if hits[index as int] && !before.full && before.matches.len() < limit {
                &&& after.observed.take(seen as int) == before.observed
                &&& after.observed.len() > seen
                &&& after.observed[seen as int] == (if index > context {
                    index - context
                } else {
                    0
                }) + 1
                &&& after.observed.last() == if index + context < lines.len() {
                    index + context + 1
                } else {
                    lines.len() as int
                }
                &&& forall|k: int, l: int|
                    seen <= k < l < after.observed.len() ==> #[trigger] after.observed[l]
                        - #[trigger] after.observed[k] == l - k
            } else {
                after.observed == before.observed && after.matches == before.matches
            }
        }),
{
    let before = text_search(earlier, path, lines, hits, context, limit, index);
    let after = text_search(earlier, path, lines, hits, context, limit, index + 1);
    lemma_block(path, lines, index as int, context);
    if hits[index as int] && !before.full && before.matches.len() < limit {
        let from = context_start(index as int, context);
        let to = context_end(index as int, context, lines.len() as int);
        let seen = before.observed.len() as int;
        let block = numbers(from, to);
        assert(after.observed == before.observed + block);
        assert(after.observed.take(seen) =~= before.observed);
        assert forall|k: int| seen <= k < after.observed.len() implies #[trigger] after.observed[k]
            == from + 1 + (k - seen) by {
            assert(after.observed[k] == block[k - seen]);
        }
    }
}

/// Whether `found` is line `index` as a match: the path, its number and text, and up to `context` lines on
/// each side.
pub open spec fn is_match_of(
    found: MatchModel,
    path: Seq<char>,
    lines: Seq<Seq<char>>,
    index: int,
    context: int,
) -> bool {
    let ahead = found.before.len();
    &&& found.path == path
    &&& found.line == index + 1
    &&& found.text == lines[index]
    &&& ahead == if index < context {
        index
    } else {
        context
    }
    &&& forall|j: int|
        0 <= j < ahead ==> #[trigger] found.before[j] == (
            (index - ahead + j + 1) as usize,
            lines[index - ahead + j],
        )
    &&& found.after.len() == if index + context < lines.len() {
        context
    } else {
        lines.len() - 1 - index
    }
    &&& forall|j: int|
        0 <= j < found.after.len() ==> #[trigger] found.after[j] == (
            (index + j + 2) as usize,
            lines[index + 1 + j],
        )
}

proof fn lemma_match(path: Seq<char>, lines: Seq<Seq<char>>, index: int, context: int)
    requires
        0 <= index < lines.len() <= usize::MAX,
        0 <= context,
    ensures
        is_match_of(match_at(path, lines, index, context), path, lines, index, context),
        ({
            let from = context_start(index, context);
            let to = context_end(index, context, lines.len() as int);
            let block = (numbers(from, index) + numbers(index + 1, to)).push((index + 1) as usize);
            &&& forall|k: int|
                0 <= k < block.len() ==> 1 <= #[trigger] block[k] <= lines.len() && index - context
                    <= block[k] - 1 <= index + context
            &&& forall|near: int|
                0 <= near < lines.len() && index - context <= near <= index + context
                    ==> #[trigger] block.contains((near + 1) as usize)
        }),
{
    let from = context_start(index, context);
    let to = context_end(index, context, lines.len() as int);
    let block = (numbers(from, index) + numbers(index + 1, to)).push((index + 1) as usize);
    let found = match_at(path, lines, index, context);
    assert forall|j: int| 0 <= j < found.before.len() implies #[trigger] found.before[j] == (
        (index - found.before.len() + j + 1) as usize,
        lines[index - found.before.len() + j],
    ) by {
        assert(found.before.len() == index - from);
    }
    assert forall|near: int|
        0 <= near < lines.len() && index - context <= near <= index
            + context implies #[trigger] block.contains((near + 1) as usize) by {
        if near < index {
            assert(block[near - from] == (near + 1) as usize);
        } else if near == index {
            assert(block.last() == (near + 1) as usize);
        } else {
            let k = (index - from) + (near - index - 1);
            assert(block[k] == (near + 1) as usize);
        }
    }
}

/// Each listed match is a matching line with the lines around it, and they are listed in the order of the
/// file. What was there before stays.
pub proof fn law_listed_matches_are_matching_lines(
    earlier: Seq<MatchModel>,
    path: Seq<char>,
    lines: Seq<Seq<char>>,
    hits: Seq<bool>,
    context: int,
    limit: int,
    count: nat,
)
    requires
        count <= lines.len() == hits.len() <= usize::MAX,
        0 <= context,
    ensures
        ({
            let found = match_search(earlier, path, lines, hits, context, limit, count);
            let held = earlier.len() as int;
            &&& found.matches.len() >= held
            &&& found.matches.take(held) == earlier
            &&& forall|k: int|
                held <= k < found.matches.len() ==> {
                    let index = (#[trigger] found.matches[k]).line - 1;
                    &&& 0 <= index < count
                    &&& hits[index]
                    &&& is_match_of(found.matches[k], path, lines, index, context)
                }
            &&& forall|k: int, l: int|
                held <= k < l < found.matches.len() ==> (#[trigger] found.matches[k]).line < (
                #[trigger] found.matches[l]).line
        }),
    decreases count,
{
    let found = match_search(earlier, path, lines, hits, context, limit, count);
    let held = earlier.len() as int;
    if count > 0 {
        let last = (count - 1) as nat;
        law_listed_matches_are_matching_lines(earlier, path, lines, hits, context, limit, last);
        let before = match_search(earlier, path, lines, hits, context, limit, last);
        lemma_match(path, lines, last as int, context);
        assert(found.matches.take(held) =~= before.matches.take(held));
    } else {
        assert(found.matches.take(held) =~= earlier);
    }
}

/// A search that did not reach its limit lists every matching line.
pub proof fn law_no_match_is_left_out(
    earlier: Seq<MatchModel>,
    path: Seq<char>,
    lines: Seq<Seq<char>>,
    hits: Seq<bool>,
    context: int,
    limit: int,
    count: nat,
    index: int,
)
    requires
        count <= lines.len() == hits.len() <= usize::MAX,
        0 <= context,
        !match_search(earlier, path, lines, hits, context, limit, count).full,
        0 <= index < count,
        hits[index],
    ensures
        ({
            let found = match_search(earlier, path, lines, hits, context, limit, count);
            exists|k: int|
                earlier.len() <= k < found.matches.len() && is_match_of(
                    #[trigger] found.matches[k],
                    path,
                    lines,
                    index,
                    context,
                )
        }),
    decreases count,
{
    let found = match_search(earlier, path, lines, hits, context, limit, count);
    let last = (count - 1) as nat;
    let before = match_search(earlier, path, lines, hits, context, limit, last);
    law_listed_matches_are_matching_lines(earlier, path, lines, hits, context, limit, last);
    if index < last {
        law_no_match_is_left_out(earlier, path, lines, hits, context, limit, last, index);
        let k = choose|k: int|
            earlier.len() <= k < before.matches.len() && is_match_of(
                #[trigger] before.matches[k],
                path,
                lines,
                index,
                context,
            );
        assert(found.matches[k] == before.matches[k]);
    } else {
        lemma_match(path, lines, index, context);
        let k = found.matches.len() - 1;
        assert(is_match_of(found.matches[k], path, lines, index, context));
    }
}

/// A listing search notes the numbers of the lines near the listed matches, all of them where the limit
/// was not reached and none but them in any case.
pub proof fn law_listed_lines_are_noted(
    earlier: Seq<MatchModel>,
    path: Seq<char>,
    lines: Seq<Seq<char>>,
    hits: Seq<bool>,
    context: int,
    limit: int,
    count: nat,
)
    requires
        count <= lines.len() == hits.len() <= usize::MAX,
        0 <= context,
    ensures
        ({
            let found = match_search(earlier, path, lines, hits, context, limit, count);
            &&& forall|k: int|
                0 <= k < found.observed.len() ==> 1 <= #[trigger] found.observed[k] <= lines.len()
                    && is_near_a_hit(hits, count, found.observed[k] - 1, context)
            &&& !found.full ==> forall|near: int|
                0 <= near < lines.len() && #[trigger] is_near_a_hit(hits, count, near, context)
                    ==> found.observed.contains((near + 1) as usize)
        }),
    decreases count,
{
    let found = match_search(earlier, path, lines, hits, context, limit, count);
    if count > 0 {
        let last = (count - 1) as nat;
        law_listed_lines_are_noted(earlier, path, lines, hits, context, limit, last);
        let before = match_search(earlier, path, lines, hits, context, limit, last);
        lemma_match(path, lines, last as int, context);
        let seen = before.observed.len() as int;
        let from = context_start(last as int, context);
        let to = context_end(last as int, context, lines.len() as int);
        let block = (numbers(from, last as int) + numbers(last as int + 1, to)).push((last + 1) as usize);
        let adds = !before.full && hits[last as int] && before.matches.len() < limit;
        if adds {
            assert(found.observed =~= before.observed + block);
        }
        assert forall|k: int| 0 <= k < found.observed.len() implies 1 <= #[trigger] found.observed[k]
            <= lines.len() && is_near_a_hit(hits, count, found.observed[k] - 1, context) by {
            let near = found.observed[k] - 1;
            if k < seen {
                assert(found.observed[k] == before.observed[k]);
                assert(is_near_a_hit(hits, last, near, context));
                let index = choose|index: int|
                    0 <= index < last && #[trigger] hits[index] && index - context <= near
                        <= index + context;
                assert(hits[index]);
            } else {
                assert(found.observed[k] == block[k - seen]);
                assert(hits[last as int]);
            }
        }
        if !found.full {
            assert forall|near: int|
                0 <= near < lines.len() && #[trigger] is_near_a_hit(
                    hits,
                    count,
                    near,
                    context,
                ) implies found.observed.contains((near + 1) as usize) by {
                let index = choose|index: int|
                    0 <= index < count && #[trigger] hits[index] && index - context <= near
                        <= index + context;
                if index < last {
                    assert(is_near_a_hit(hits, last, near, context));
                    let k = choose|k: int|
                        0 <= k < before.observed.len() && before.observed[k] == (near + 1) as usize;
                    assert(found.observed[k] == (near + 1) as usize);
                } else {
                    assert(block.contains((near + 1) as usize));
                    let k = choose|k: int| 0 <= k < block.len() && block[k] == (near + 1) as usize;
                    assert(found.observed[seen + k] == (near + 1) as usize);
                }
            }
        }
    }
}

/// A listing search has reached its limit exactly where it met a matching line and lists as many matches
/// as the limit or more.
pub proof fn law_listing_is_full_at_the_limit(
    earlier: Seq<MatchModel>,
    path: Seq<char>,
    lines: Seq<Seq<char>>,
    hits: Seq<bool>,
    context: int,
    limit: int,
    count: nat,
)
    requires
        count <= lines.len() == hits.len(),
    ensures
        ({
            let found = match_search(earlier, path, lines, hits, context, limit, count);
            found.full <==> found.matches.len() >= limit && (exists|index: int|
                0 <= index < count && #[trigger] hits[index])
        }),
    decreases count,
{
    if count > 0 {
        let last = (count - 1) as nat;
        law_listing_is_full_at_the_limit(earlier, path, lines, hits, context, limit, last);
        let before = match_search(earlier, path, lines, hits, context, limit, last);
        if before.full {
            let index = choose|index: int| 0 <= index < last && #[trigger] hits[index];
            assert(hits[index]);
        } else if !hits[last as int] && exists|index: int| 0 <= index < count && #[trigger] hits[index] {
            let index = choose|index: int| 0 <= index < count && #[trigger] hits[index];
            assert(0 <= index < last);
        }
    }
}

/// A higher limit lists the same matches and more behind them; the same ones where the limit was not
/// reached.
pub proof fn law_higher_limit_lists_more(
    earlier: Seq<MatchModel>,
    path: Seq<char>,
    lines: Seq<Seq<char>>,
    hits: Seq<bool>,
    context: int,
    limit: int,
    higher: int,
    count: nat,
)
    requires
        limit <= higher,
    ensures
        ({
            let found = match_search(earlier, path, lines, hits, context, limit, count);
            let more = match_search(earlier, path, lines, hits, context, higher, count);
            &&& found.matches.len() <= more.matches.len()
            &&& found.observed.len() <= more.observed.len()
            &&& found.matches == more.matches.take(found.matches.len() as int)
            &&& found.observed == more.observed.take(found.observed.len() as int)
            &&& !found.full ==> found == more
        }),
    decreases count,
{
    let found = match_search(earlier, path, lines, hits, context, limit, count);
    let more = match_search(earlier, path, lines, hits, context, higher, count);
    if count > 0 {
        let last = (count - 1) as nat;
        law_higher_limit_lists_more(earlier, path, lines, hits, context, limit, higher, last);
    }
    assert(found.matches =~= more.matches.take(found.matches.len() as int));
    assert(found.observed =~= more.observed.take(found.observed.len() as int));
}

} // verus!
