//! What a search as a whole comes to: which paths it visits below its root, and what it finds there.
use vstd::prelude::*;

use crate::outside::lowercase;
use crate::paths::PathFilters;
use crate::search_flow::{
    fills, newly_collected, newly_found, newly_globbed, visit_failure, walked, GlobFileArgs,
    SearchFileArgs,
};
use crate::walk::{added, GlobHit, Hit, Visit};

verus! {

/// The paths that are visited next because of a visit.
pub open spec fn listed_by<P>(visit: Visit<P>) -> Seq<P> {
    walked(Seq::empty(), visit)
}

/// The paths that a walk visits, in their order, if it has those of `stack` to visit. There is no
/// such order where a visit fails, or where the walk is not over after so many steps.
pub open spec fn walk_order<P>(tree: spec_fn(P) -> Visit<P>, stack: Seq<P>, steps: nat) -> Option<
    Seq<P>,
>
    decreases steps,
{
    if stack.len() == 0 {
        Some(Seq::empty())
    } else if steps == 0 || visit_failure(tree(stack.last())) is Some {
        None
    } else {
        match walk_order(
            tree,
            walked(stack.drop_last(), tree(stack.last())),
            (steps - 1) as nat,
        ) {
            Some(rest) => Some(seq![stack.last()] + rest),
            None => None,
        }
    }
}

/// Whether each path of a chain is listed by the one before it.
pub open spec fn leads_down<P>(tree: spec_fn(P) -> Visit<P>, chain: Seq<P>) -> bool
    decreases chain.len(),
{
    if chain.len() <= 1 {
        chain.len() == 1
    } else {
        listed_by(tree(chain[0])).contains(chain[1]) && leads_down(tree, chain.skip(1))
    }
}

/// Whether a path is one of the roots or lies below one.
pub open spec fn is_below<P>(tree: spec_fn(P) -> Visit<P>, roots: Seq<P>, path: P) -> bool {
    exists|chain: Seq<P>| #[trigger]
        leads_down(tree, chain) && roots.contains(chain[0]) && chain.last() == path
}

proof fn lemma_next_stack<P>(stack: Seq<P>, visit: Visit<P>, path: P)
    ensures
        walked(stack, visit).contains(path) == (stack.contains(path) || listed_by(visit).contains(
            path,
        )),
{
    let next = walked(stack, visit);
    let listed = listed_by(visit);
    assert(next =~= stack + listed);
    if stack.contains(path) {
        let at = choose|i: int| 0 <= i < stack.len() && stack[i] == path;
        assert(next[at] == path);
    }
    if listed.contains(path) {
        let at = choose|i: int| 0 <= i < listed.len() && listed[i] == path;
        assert(next[stack.len() + at] == path);
    }
    if next.contains(path) {
        let at = choose|i: int| 0 <= i < next.len() && next[i] == path;
        if at < stack.len() {
            assert(stack[at] == path);
        } else {
            assert(listed[at - stack.len()] == path);
        }
    }
}

proof fn lemma_first_or_rest<P>(first: P, rest: Seq<P>, path: P)
    ensures
        (seq![first] + rest).contains(path) == (path == first || rest.contains(path)),
{
    let all = seq![first] + rest;
    if path == first {
        assert(all[0] == path);
    }
    if rest.contains(path) {
        let at = choose|i: int| 0 <= i < rest.len() && rest[i] == path;
        assert(all[at + 1] == path);
    }
    if all.contains(path) {
        let at = choose|i: int| 0 <= i < all.len() && all[i] == path;
        if at > 0 {
            assert(rest[at - 1] == path);
        }
    }
}

proof fn lemma_chain_is_walked<P>(
    tree: spec_fn(P) -> Visit<P>,
    stack: Seq<P>,
    steps: nat,
    chain: Seq<P>,
)
    requires
        walk_order(tree, stack, steps) is Some,
        leads_down(tree, chain),
        stack.contains(chain[0]),
    ensures
        walk_order(tree, stack, steps)->0.contains(chain.last()),
    decreases steps,
{
    let top = stack.last();
    let next = walked(stack.drop_last(), tree(top));
    let rest = walk_order(tree, next, (steps - 1) as nat)->0;
    lemma_first_or_rest(top, rest, chain.last());
    if chain[0] == top && chain.len() == 1 {
        assert(chain.last() == top);
    } else if chain[0] == top {
        lemma_next_stack(stack.drop_last(), tree(top), chain[1]);
        assert(chain.skip(1)[0] == chain[1]);
        lemma_chain_is_walked(tree, next, (steps - 1) as nat, chain.skip(1));
        assert(chain.skip(1).last() == chain.last());
    } else {
        let at = choose|i: int| 0 <= i < stack.len() && stack[i] == chain[0];
        assert(stack.drop_last()[at] == chain[0]);
        lemma_next_stack(stack.drop_last(), tree(top), chain[0]);
        lemma_chain_is_walked(tree, next, (steps - 1) as nat, chain);
    }
}

proof fn lemma_walked_has_chain<P>(
    tree: spec_fn(P) -> Visit<P>,
    stack: Seq<P>,
    steps: nat,
    path: P,
) -> (chain: Seq<P>)
    requires
        walk_order(tree, stack, steps) is Some,
        walk_order(tree, stack, steps)->0.contains(path),
    ensures
        leads_down(tree, chain),
        stack.contains(chain[0]),
        chain.last() == path,
    decreases steps,
{
    let top = stack.last();
    assert(stack[stack.len() - 1] == top);
    let next = walked(stack.drop_last(), tree(top));
    let rest = walk_order(tree, next, (steps - 1) as nat)->0;
    lemma_first_or_rest(top, rest, path);
    if path == top {
        seq![top]
    } else {
        let chain = lemma_walked_has_chain(tree, next, (steps - 1) as nat, path);
        lemma_next_stack(stack.drop_last(), tree(top), chain[0]);
        if stack.drop_last().contains(chain[0]) {
            let at = choose|i: int|
                0 <= i < stack.drop_last().len() && stack.drop_last()[i] == chain[0];
            assert(stack[at] == chain[0]);
            chain
        } else {
            let longer = seq![top] + chain;
            assert(longer.skip(1) =~= chain);
            assert(longer[1] == chain[0]);
            longer
        }
    }
}

/// A walk that comes to its end visits the roots and all that lies below them, and nothing else.
pub proof fn law_walk_visits_all_below<P>(
    tree: spec_fn(P) -> Visit<P>,
    roots: Seq<P>,
    steps: nat,
    path: P,
)
    requires
        walk_order(tree, roots, steps) is Some,
    ensures
        walk_order(tree, roots, steps)->0.contains(path) == is_below(tree, roots, path),
{
    if walk_order(tree, roots, steps)->0.contains(path) {
        let chain = lemma_walked_has_chain(tree, roots, steps, path);
        assert(leads_down(tree, chain));
    }
    if is_below(tree, roots, path) {
        let chain = choose|chain: Seq<P>| #[trigger]
            leads_down(tree, chain) && roots.contains(chain[0]) && chain.last() == path;
        lemma_chain_is_walked(tree, roots, steps, chain);
    }
}

/// What a search has found in the end that has found `found` so far and has the paths of `stack` to
/// visit: `finds` says what it makes of each. There is no end where a visit fails, or where it is
/// not reached after so many steps.
pub open spec fn found_in_the_end<P, H>(
    tree: spec_fn(P) -> Visit<P>,
    finds: spec_fn(P) -> Option<H>,
    limit: usize,
    stack: Seq<P>,
    found: Seq<H>,
    steps: nat,
) -> Option<Seq<H>>
    decreases steps,
{
    if stack.len() == 0 {
        Some(found)
    } else if steps == 0 || visit_failure(tree(stack.last())) is Some {
        None
    } else if fills(found, finds(stack.last()), limit) {
        Some(added(found, finds(stack.last()), limit))
    } else {
        found_in_the_end(
            tree,
            finds,
            limit,
            walked(stack.drop_last(), tree(stack.last())),
            added(found, finds(stack.last()), limit),
            (steps - 1) as nat,
        )
    }
}

/// A search never keeps more than its limit allows, whatever the limit is.
pub proof fn law_limit_is_kept<P, H>(
    tree: spec_fn(P) -> Visit<P>,
    finds: spec_fn(P) -> Option<H>,
    limit: usize,
    stack: Seq<P>,
    found: Seq<H>,
    steps: nat,
)
    requires
        found.len() <= limit,
        found_in_the_end(tree, finds, limit, stack, found, steps) is Some,
    ensures
        found_in_the_end(tree, finds, limit, stack, found, steps)->0.len() <= limit,
    decreases steps,
{
    if stack.len() > 0 && !fills(found, finds(stack.last()), limit) {
        law_limit_is_kept(
            tree,
            finds,
            limit,
            walked(stack.drop_last(), tree(stack.last())),
            added(found, finds(stack.last()), limit),
            (steps - 1) as nat,
        );
    }
}

/// Whether something is found at a root or below one.
pub open spec fn found_below<P, H>(
    tree: spec_fn(P) -> Visit<P>,
    finds: spec_fn(P) -> Option<H>,
    roots: Seq<P>,
    hit: H,
) -> bool {
    exists|path: P| #[trigger] is_below(tree, roots, path) && finds(path) == Some(hit)
}

proof fn lemma_found_on_the_way<P, H>(
    tree: spec_fn(P) -> Visit<P>,
    finds: spec_fn(P) -> Option<H>,
    limit: usize,
    stack: Seq<P>,
    found: Seq<H>,
    steps: nat,
    hit: H,
)
    requires
        found_in_the_end(tree, finds, limit, stack, found, steps) is Some,
        found_in_the_end(tree, finds, limit, stack, found, steps)->0.len() < limit,
    ensures
        walk_order(tree, stack, steps) is Some,
        found_in_the_end(tree, finds, limit, stack, found, steps)->0.contains(hit) <==> (
        found.contains(hit) || exists|path: P| #[trigger]
            walk_order(tree, stack, steps)->0.contains(path) && finds(path) == Some(hit)),
    decreases steps,
{
    if stack.len() > 0 {
        let top = stack.last();
        let next = walked(stack.drop_last(), tree(top));
        let after = added(found, finds(top), limit);
        lemma_found_on_the_way(tree, finds, limit, next, after, (steps - 1) as nat, hit);
        let rest = walk_order(tree, next, (steps - 1) as nat)->0;
        let order = walk_order(tree, stack, steps)->0;
        assert forall|path: P| #[trigger] order.contains(path) == (path == top || rest.contains(
            path,
        )) by {
            lemma_first_or_rest(top, rest, path);
        }
        if found.contains(hit) {
            let at = choose|i: int| 0 <= i < found.len() && found[i] == hit;
            assert(after[at] == hit);
        }
        if finds(top) == Some(hit) {
            assert(after[found.len() as int] == hit);
            assert(order.contains(top));
        }
        if after.contains(hit) && !found.contains(hit) {
            let at = choose|i: int| 0 <= i < after.len() && after[i] == hit;
            if at < found.len() {
                assert(found[at] == hit);
            }
            assert(finds(top) == Some(hit));
        }
        if exists|path: P| #[trigger] rest.contains(path) && finds(path) == Some(hit) {
            let path = choose|path: P| #[trigger] rest.contains(path) && finds(path) == Some(hit);
            assert(order.contains(path));
        }
        if exists|path: P| #[trigger] order.contains(path) && finds(path) == Some(hit) {
            let path = choose|path: P| #[trigger] order.contains(path) && finds(path) == Some(hit);
            if path != top {
                assert(rest.contains(path));
            }
        }
    } else {
        assert forall|path: P| !(#[trigger] walk_order(tree, stack, steps)->0.contains(path)) by {}
    }
}

proof fn lemma_found_below<P, H>(
    tree: spec_fn(P) -> Visit<P>,
    finds: spec_fn(P) -> Option<H>,
    limit: usize,
    roots: Seq<P>,
    found: Seq<H>,
    steps: nat,
    hit: H,
)
    requires
        found_in_the_end(tree, finds, limit, roots, found, steps) is Some,
        found_in_the_end(tree, finds, limit, roots, found, steps)->0.len() < limit,
    ensures
        found_in_the_end(tree, finds, limit, roots, found, steps)->0.contains(hit) <==> (
        found.contains(hit) || found_below(tree, finds, roots, hit)),
{
    lemma_found_on_the_way(tree, finds, limit, roots, found, steps, hit);
    let order = walk_order(tree, roots, steps)->0;
    assert forall|path: P| #[trigger] order.contains(path) == is_below(tree, roots, path) by {
        law_walk_visits_all_below(tree, roots, steps, path);
    }
    if exists|path: P| #[trigger] order.contains(path) && finds(path) == Some(hit) {
        let path = choose|path: P| #[trigger] order.contains(path) && finds(path) == Some(hit);
        assert(is_below(tree, roots, path));
    }
    if found_below(tree, finds, roots, hit) {
        let path = choose|path: P| #[trigger]
            is_below(tree, roots, path) && finds(path) == Some(hit);
        law_walk_visits_all_below(tree, roots, steps, path);
        assert(order.contains(path));
    }
}

/// What a path search makes of the file at a path.
pub open spec fn search_finds<P>(
    tree: spec_fn(P) -> Visit<P>,
    args: SearchFileArgs,
) -> spec_fn(P) -> Option<Hit> {
    |path: P| newly_found(tree(path), lowercase(args.query@), args.filters)
}

/// A path search that does not reach its limit finds just the files below its root that the filters
/// keep and that match the query, besides what it had found before.
pub proof fn law_search_finds_every_match<P>(
    tree: spec_fn(P) -> Visit<P>,
    args: SearchFileArgs,
    root: P,
    before: Seq<Hit>,
    steps: nat,
    hit: Hit,
)
    requires
        found_in_the_end(tree, search_finds(tree, args), args.limit, seq![root], before, steps)
            matches Some(found) && found.len() < args.limit,
    ensures
        found_in_the_end(
            tree,
            search_finds(tree, args),
            args.limit,
            seq![root],
            before,
            steps,
        )->0.contains(hit) <==> (before.contains(hit) || found_below(
            tree,
            search_finds(tree, args),
            seq![root],
            hit,
        )),
{
    lemma_found_below(tree, search_finds(tree, args), args.limit, seq![root], before, steps, hit);
}

/// What a glob search makes of the entry at a path.
pub open spec fn glob_finds<P>(
    tree: spec_fn(P) -> Visit<P>,
    args: GlobFileArgs,
) -> spec_fn(P) -> Option<GlobHit> {
    |path: P| newly_globbed(tree(path), args.pattern@, args.entry_type)
}

/// A glob search that does not reach its limit finds just the entries of the wanted type at and
/// below its root that match the pattern.
pub proof fn law_glob_finds_every_match<P>(
    tree: spec_fn(P) -> Visit<P>,
    args: GlobFileArgs,
    root: P,
    steps: nat,
    hit: GlobHit,
)
    requires
        found_in_the_end(
            tree,
            glob_finds(tree, args),
            args.limit,
            seq![root],
            Seq::empty(),
            steps,
        ) matches Some(found) && found.len() < args.limit,
    ensures
        found_in_the_end(
            tree,
            glob_finds(tree, args),
            args.limit,
            seq![root],
            Seq::empty(),
            steps,
        )->0.contains(hit) <==> found_below(tree, glob_finds(tree, args), seq![root], hit),
{
    lemma_found_below(
        tree,
        glob_finds(tree, args),
        args.limit,
        seq![root],
        Seq::empty(),
        steps,
        hit,
    );
}

/// Which paths a search in files reads.
pub open spec fn grep_collects<P>(
    tree: spec_fn(P) -> Visit<P>,
    filters: PathFilters,
) -> spec_fn(P) -> Option<P> {
    |path: P| newly_collected(path, tree(path), filters)
}

/// A search in files reads just the files below its root that the filters keep.
pub proof fn law_grep_reads_every_file<P>(
    tree: spec_fn(P) -> Visit<P>,
    filters: PathFilters,
    root: P,
    steps: nat,
    file: P,
)
    requires
        found_in_the_end(
            tree,
            grep_collects(tree, filters),
            usize::MAX,
            seq![root],
            Seq::empty(),
            steps,
        ) matches Some(files) && files.len() < usize::MAX,
    ensures
        found_in_the_end(
            tree,
            grep_collects(tree, filters),
            usize::MAX,
            seq![root],
            Seq::empty(),
            steps,
        )->0.contains(file) <==> found_below(
            tree,
            grep_collects(tree, filters),
            seq![root],
            file,
        ),
{
    lemma_found_below(
        tree,
        grep_collects(tree, filters),
        usize::MAX,
        seq![root],
        Seq::empty(),
        steps,
        file,
    );
}

} // verus!
