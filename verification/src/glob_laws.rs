//! What a glob matches, and what the regex made from it reads.
//!
//! [`reads`] says which texts a regex between `^` and `$` matches, as far as the regexes for globs go:
//! characters, any character, any character but one, their repetition, and an optional group.
use vstd::prelude::*;

use crate::outside::regex_matches;
use crate::paths::{glob_body, glob_matches, glob_regex, needs_escape};

verus! {

/// The characters that a regex does not take literally.
pub open spec fn is_special(c: char) -> bool {
    "\\.+*?()|[]{}^$"@.contains(c)
}

/// What one place of a regex stands for.
pub enum Place {
    /// Any character but a line feed.
    Any,
    /// Any character but this one.
    Not(char),
    /// This character.
    Just(char),
}

/// Whether a character stands at such a place.
pub open spec fn suits(place: Place, c: char) -> bool {
    match place {
        Place::Any => c != '\n',
        Place::Not(other) => c != other,
        Place::Just(wanted) => c == wanted,
    }
}

/// The first place of a regex, and how many characters of the regex it takes.
pub open spec fn first_place(regex: Seq<char>) -> Option<(Place, int)> {
    if regex.len() == 0 {
        None
    } else if regex[0] == '.' {
        Some((Place::Any, 1))
    } else if regex.len() >= 4 && regex[0] == '[' && regex[1] == '^' && !is_special(regex[2])
        && regex[3] == ']' {
        Some((Place::Not(regex[2]), 4))
    } else if regex.len() >= 2 && regex[0] == '\\' && is_special(regex[1]) {
        Some((Place::Just(regex[1]), 2))
    } else if !is_special(regex[0]) {
        Some((Place::Just(regex[0]), 1))
    } else {
        None
    }
}

/// Where the group that a regex begins with ends: the place of the first closing bracket.
pub open spec fn group_end(regex: Seq<char>, from: int) -> int
    decreases regex.len() - from,
{
    if from < 0 || from >= regex.len() || regex[from] == ')' {
        from
    } else {
        group_end(regex, from + 1)
    }
}

/// Whether a regex begins with an optional group.
pub open spec fn begins_group(regex: Seq<char>) -> bool {
    &&& regex.len() >= 3
    &&& regex[0] == '(' && regex[1] == '?' && regex[2] == ':'
    &&& 3 <= group_end(regex, 3) < regex.len() - 1
    &&& regex[group_end(regex, 3) + 1] == '?'
}

/// Whether a regex matches a whole text.
pub open spec fn reads(regex: Seq<char>, text: Seq<char>) -> bool
    decreases regex.len(),
{
    if regex.len() == 0 {
        text.len() == 0
    } else if begins_group(regex) {
        let end = group_end(regex, 3);
        let group = regex.subrange(3, end);
        let rest = regex.skip(end + 2);
        reads(rest, text) || exists|k: int| #![trigger text.take(k)]
            0 <= k <= text.len() && reads(group, text.take(k)) && reads(
                rest,
                text.skip(k),
            )
    } else {
        match first_place(regex) {
            None => false,
            Some((place, size)) => if regex.len() > size && regex[size] == '*' {
                exists|k: int| #![trigger text.skip(k)]
                    0 <= k <= text.len() && (forall|i: int| 0 <= i < k ==> suits(place, text[i]))
                        && reads(regex.skip(size + 1), text.skip(k))
            } else {
                text.len() > 0 && suits(place, text[0]) && reads(regex.skip(size), text.skip(1))
            },
        }
    }
}

/// Whether a regex is one between `^` and `$`, and matches a text.
pub open spec fn reads_whole(regex: Seq<char>, text: Seq<char>) -> bool {
    &&& regex.len() >= 2
    &&& regex[0] == '^' && regex.last() == '$'
    &&& reads(regex.subrange(1, regex.len() - 1), text)
}

/// Whether a run of characters has none of this kind.
pub open spec fn without(run: Seq<char>, c: char) -> bool {
    forall|i: int| 0 <= i < run.len() ==> run[i] != c
}

/// What a glob matches: a star stands for any run without a slash, a double star for any run, a double
/// star with a slash for nothing or for any run that ends with a slash, a question mark for one
/// character that is no slash, and every other character for itself. A run over slashes stays within a
/// line.
pub open spec fn fits(pattern: Seq<char>, text: Seq<char>) -> bool
    decreases pattern.len(),
{
    if pattern.len() == 0 {
        text.len() == 0
    } else if pattern.len() >= 3 && pattern[0] == '*' && pattern[1] == '*' && pattern[2] == '/' {
        fits(pattern.skip(3), text) || exists|k: int| #![trigger text.skip(k + 1)]
            0 <= k < text.len() && without(text.take(k), '\n') && text[k] == '/' && fits(
                pattern.skip(3),
                text.skip(k + 1),
            )
    } else if pattern.len() >= 2 && pattern[0] == '*' && pattern[1] == '*' {
        exists|k: int| #![trigger text.skip(k)]
            0 <= k <= text.len() && without(text.take(k), '\n') && fits(
                pattern.skip(2),
                text.skip(k),
            )
    } else if pattern[0] == '*' {
        exists|k: int| #![trigger text.skip(k)]
            0 <= k <= text.len() && without(text.take(k), '/') && fits(
                pattern.skip(1),
                text.skip(k),
            )
    } else if pattern[0] == '?' {
        text.len() > 0 && text[0] != '/' && fits(pattern.skip(1), text.skip(1))
    } else {
        text.len() > 0 && text[0] == pattern[0] && fits(pattern.skip(1), text.skip(1))
    }
}

proof fn lemma_special(c: char)
    ensures
        is_special(c) <==> (c == '\\' || c == '.' || c == '+' || c == '*' || c == '?' || c == '('
            || c == ')' || c == '|' || c == '[' || c == ']' || c == '{' || c == '}' || c == '^' || c
            == '$'),
{
    reveal_strlit("\\.+*?()|[]{}^$");
    let all = "\\.+*?()|[]{}^$"@;
    assert(all.len() == 14);
    assert(all[0] == '\\' && all[1] == '.' && all[2] == '+' && all[3] == '*' && all[4] == '?'
        && all[5] == '(' && all[6] == ')' && all[7] == '|' && all[8] == '[' && all[9] == ']'
        && all[10] == '{' && all[11] == '}' && all[12] == '^' && all[13] == '$');
}

/// The regex for a run, with what follows it.
proof fn lemma_run(place: Place, atom: Seq<char>, rest: Seq<char>, text: Seq<char>)
    requires
        atom.len() > 0,
        first_place(atom + seq!['*'] + rest) == Some((place, atom.len() as int)),
        !begins_group(atom + seq!['*'] + rest),
    ensures
        reads(atom + seq!['*'] + rest, text) <==> exists|k: int| #![trigger text.skip(k)]
            0 <= k <= text.len() && (forall|i: int| 0 <= i < k ==> suits(place, text[i]))
                && reads(rest, text.skip(k)),
{
    let regex = atom + seq!['*'] + rest;
    assert(regex[atom.len() as int] == '*');
    let after = regex.skip(atom.len() as int + 1);
    assert(after =~= rest);
    if reads(regex, text) {
        let k = choose|k: int| #![trigger text.skip(k)]
            0 <= k <= text.len() && (forall|i: int| 0 <= i < k ==> suits(place, text[i]))
                && reads(after, text.skip(k));
        assert(reads(rest, text.skip(k)));
    }
    if exists|k: int| #![trigger text.skip(k)]
        0 <= k <= text.len() && (forall|i: int| 0 <= i < k ==> suits(place, text[i]))
            && reads(rest, text.skip(k)) {
        let k = choose|k: int| #![trigger text.skip(k)]
            0 <= k <= text.len() && (forall|i: int| 0 <= i < k ==> suits(place, text[i]))
                && reads(rest, text.skip(k));
        assert(reads(after, text.skip(k)));
        assert(reads(regex, text));
    }
}

proof fn lemma_star(rest: Seq<char>, text: Seq<char>)
    ensures
        reads("[^/]*"@ + rest, text) <==> exists|k: int| #![trigger text.skip(k)]
            0 <= k <= text.len() && without(text.take(k), '/') && reads(
                rest,
                text.skip(k),
            ),
{
    reveal_strlit("[^/]*");
    let atom = seq!['[', '^', '/', ']'];
    let regex = atom + seq!['*'] + rest;
    lemma_special('/');
    assert("[^/]*"@ + rest =~= regex);
    lemma_run(Place::Not('/'), atom, rest, text);
    assert forall|k: int| 0 <= k <= text.len() implies (without(text.take(k), '/') <==> forall|i: int|
        0 <= i < k ==> suits(Place::Not('/'), #[trigger] text[i])) by {
        lemma_without(text, k, Place::Not('/'), '/');
    }
    if reads(regex, text) {
        let k = choose|k: int| #![trigger text.skip(k)]
            0 <= k <= text.len() && (forall|i: int|
                0 <= i < k ==> suits(Place::Not('/'), text[i])) && reads(
                rest,
                text.skip(k),
            );
        lemma_without(text, k, Place::Not('/'), '/');
    }
}

proof fn lemma_without(text: Seq<char>, k: int, place: Place, c: char)
    requires
        0 <= k <= text.len(),
        forall|x: char| suits(place, x) <==> x != c,
    ensures
        without(text.take(k), c) <==> (forall|i: int| 0 <= i < k ==> suits(place, text[i])),
{
    if without(text.take(k), c) {
        assert forall|i: int| 0 <= i < k implies suits(place, text[i]) by {
            assert(text.take(k)[i] == text[i]);
        }
    }
    if forall|i: int| 0 <= i < k ==> suits(place, text[i]) {
        assert forall|i: int| 0 <= i < text.take(k).len() implies text.take(k)[i] != c by {
            assert(suits(place, text[i]));
        }
    }
}

proof fn lemma_double_star(rest: Seq<char>, text: Seq<char>)
    ensures
        reads(".*"@ + rest, text) <==> exists|k: int| #![trigger text.skip(k)]
            0 <= k <= text.len() && without(text.take(k), '\n') && reads(
                rest,
                text.skip(k),
            ),
{
    reveal_strlit(".*");
    let atom = seq!['.'];
    let regex = atom + seq!['*'] + rest;
    assert(".*"@ + rest =~= regex);
    lemma_run(Place::Any, atom, rest, text);
    if reads(regex, text) {
        let k = choose|k: int| #![trigger text.skip(k)]
            0 <= k <= text.len() && (forall|i: int|
                0 <= i < k ==> suits(Place::Any, text[i])) && reads(rest, text.skip(k));
        lemma_without(text, k, Place::Any, '\n');
    }
    if exists|k: int| #![trigger text.skip(k)]
        0 <= k <= text.len() && without(text.take(k), '\n') && reads(
            rest,
            text.skip(k),
        ) {
        let k = choose|k: int| #![trigger text.skip(k)]
            0 <= k <= text.len() && without(text.take(k), '\n') && reads(
                rest,
                text.skip(k),
            );
        lemma_without(text, k, Place::Any, '\n');
    }
}

/// The inside of the group for a double star with a slash.
proof fn lemma_run_and_slash(text: Seq<char>)
    ensures
        reads(".*/"@, text) <==> text.len() > 0 && text.last() == '/' && without(
            text.drop_last(),
            '\n',
        ),
{
    reveal_strlit(".*/");
    reveal_strlit(".*");
    reveal_strlit("/");
    lemma_special('/');
    lemma_double_star("/"@, text);
    assert(".*/"@ =~= ".*"@ + "/"@);
    assert forall|rest: Seq<char>| #[trigger] reads("/"@, rest) <==> rest =~= seq!['/'] by {
        reveal_with_fuel(reads, 3);
        assert("/"@.skip(1).len() == 0);
    }
    if text.len() > 0 && text.last() == '/' && without(text.drop_last(), '\n') {
        let k = text.len() - 1;
        assert(text.take(k) =~= text.drop_last());
        assert(text.skip(k) =~= seq!['/']);
        assert(reads("/"@, text.skip(k)));
    }
    if reads(".*/"@, text) {
        let k = choose|k: int| #![trigger text.skip(k)]
            0 <= k <= text.len() && without(text.take(k), '\n') && reads(
                "/"@,
                text.skip(k),
            );
        assert(text.skip(k) =~= seq!['/']);
        assert(text.skip(k).len() == 1);
        assert(text.skip(k)[0] == text[k]);
        assert(text.take(k) =~= text.drop_last());
    }
}

proof fn lemma_directories(rest: Seq<char>, text: Seq<char>)
    ensures
        reads("(?:.*/)?"@ + rest, text) <==> reads(rest, text) || exists|k: int| #![trigger text.skip(k + 1)]
            0 <= k < text.len() && without(text.take(k), '\n') && text[k] == '/' && reads(
                rest,
                text.skip(k + 1),
            ),
{
    reveal_strlit("(?:.*/)?");
    reveal_strlit(".*/");
    let regex = "(?:.*/)?"@ + rest;
    reveal_with_fuel(group_end, 5);
    assert(regex[3] == '.' && regex[4] == '*' && regex[5] == '/' && regex[6] == ')' && regex[7]
        == '?');
    assert(group_end(regex, 3) == 6);
    assert(begins_group(regex));
    assert(regex.subrange(3, 6) =~= ".*/"@);
    assert(regex.skip(8) =~= rest);
    if exists|k: int| #![trigger text.take(k)]
        0 <= k <= text.len() && reads(".*/"@, text.take(k)) && reads(
            rest,
            text.skip(k),
        ) {
        let k = choose|k: int| #![trigger text.take(k)]
            0 <= k <= text.len() && reads(".*/"@, text.take(k)) && reads(
                rest,
                text.skip(k),
            );
        lemma_run_and_slash(text.take(k));
        assert(text.take(k).drop_last() =~= text.take(k - 1));
        assert(text.take(k).last() == text[k - 1]);
        assert(reads(rest, text.skip((k - 1) + 1)));
    }
    if exists|k: int| #![trigger text.skip(k + 1)]
        0 <= k < text.len() && without(text.take(k), '\n') && text[k] == '/' && reads(
            rest,
            text.skip(k + 1),
        ) {
        let k = choose|k: int| #![trigger text.skip(k + 1)]
            0 <= k < text.len() && without(text.take(k), '\n') && text[k] == '/' && reads(
                rest,
                text.skip(k + 1),
            );
        lemma_run_and_slash(text.take(k + 1));
        assert(text.take(k + 1).drop_last() =~= text.take(k));
        assert(text.take(k + 1).last() == text[k]);
        assert(reads(regex.subrange(3, 6), text.take(k + 1)));
        assert(reads(regex.skip(8), text.skip(k + 1)));
        assert(reads(regex, text));
    }
}

proof fn lemma_not_run(rest: Seq<char>)
    ensures
        forall|pattern: Seq<char>| rest == #[trigger] glob_body(pattern) ==> rest.len() == 0
            || rest[0] != '*',
{
    assert forall|pattern: Seq<char>| rest == #[trigger] glob_body(pattern) implies rest.len() == 0
        || rest[0] != '*' by {
        reveal_strlit("(?:.*/)?");
        reveal_strlit(".*");
        reveal_strlit("[^/]*");
        reveal_strlit("[^/]");
        if pattern.len() > 0 {
            lemma_special(pattern[0]);
        }
    }
}

/// One character of a glob that is no star.
proof fn lemma_single(atom: Seq<char>, place: Place, rest: Seq<char>, text: Seq<char>)
    requires
        atom.len() > 0,
        first_place(atom + rest) == Some((place, atom.len() as int)),
        !begins_group(atom + rest),
        rest.len() == 0 || rest[0] != '*',
    ensures
        reads(atom + rest, text) <==> text.len() > 0 && suits(place, text[0]) && reads(
            rest,
            text.skip(1),
        ),
{
    let regex = atom + rest;
    assert(regex.skip(atom.len() as int) =~= rest);
    if rest.len() > 0 {
        assert(regex[atom.len() as int] == rest[0]);
    }
}

proof fn lemma_body_reads(pattern: Seq<char>, text: Seq<char>)
    ensures
        reads(glob_body(pattern), text) <==> fits(pattern, text),
    decreases pattern.len(),
{
    if pattern.len() > 0 {
        let c = pattern[0];
        lemma_special(c);
        if c == '*' && pattern.len() > 1 && pattern[1] == '*' && pattern.len() > 2 && pattern[2]
            == '/' {
            let rest = pattern.skip(3);
            lemma_directories(glob_body(rest), text);
            assert forall|t: Seq<char>| #[trigger] reads(glob_body(rest), t) <==> fits(rest, t) by {
                lemma_body_reads(rest, t);
            }
            assert forall|k: int| #[trigger] fits(rest, text.skip(k + 1)) <==> reads(
                glob_body(rest),
                text.skip(k + 1),
            ) by {
                lemma_body_reads(rest, text.skip(k + 1));
            }
            lemma_body_reads(rest, text);
        } else if c == '*' && pattern.len() > 1 && pattern[1] == '*' {
            let rest = pattern.skip(2);
            lemma_double_star(glob_body(rest), text);
            assert forall|k: int| #[trigger] fits(rest, text.skip(k)) <==> reads(
                glob_body(rest),
                text.skip(k),
            ) by {
                lemma_body_reads(rest, text.skip(k));
            }
            assert forall|k: int| #[trigger] reads(glob_body(rest), text.skip(k)) <==> fits(
                rest,
                text.skip(k),
            ) by {
                lemma_body_reads(rest, text.skip(k));
            }
        } else if c == '*' {
            let rest = pattern.skip(1);
            lemma_star(glob_body(rest), text);
            assert forall|k: int| #[trigger] fits(rest, text.skip(k)) <==> reads(
                glob_body(rest),
                text.skip(k),
            ) by {
                lemma_body_reads(rest, text.skip(k));
            }
            assert forall|k: int| #[trigger] reads(glob_body(rest), text.skip(k)) <==> fits(
                rest,
                text.skip(k),
            ) by {
                lemma_body_reads(rest, text.skip(k));
            }
        } else {
            let rest = pattern.skip(1);
            lemma_not_run(glob_body(rest));
            lemma_body_reads(rest, text.skip(1));
            if c == '?' {
                reveal_strlit("[^/]");
                lemma_special('/');
                lemma_single("[^/]"@, Place::Not('/'), glob_body(rest), text);
            } else if needs_escape(c) {
                lemma_single(seq!['\\', c], Place::Just(c), glob_body(rest), text);
            } else {
                lemma_single(seq![c], Place::Just(c), glob_body(rest), text);
            }
        }
    }
}

/// The regex made from a glob reads just the texts that the glob matches, and it is that regex, with
/// attention to case, that a glob is matched with.
pub proof fn law_regex_reads_what_the_glob_matches(pattern: Seq<char>, text: Seq<char>)
    ensures
        reads_whole(glob_regex(pattern), text) <==> fits(pattern, text),
        glob_matches(pattern, text) == regex_matches(glob_regex(pattern), false, text),
{
    reveal_strlit("^");
    reveal_strlit("$");
    let regex = glob_regex(pattern);
    assert(regex.subrange(1, regex.len() - 1) =~= glob_body(pattern));
    lemma_body_reads(pattern, text);
}

/// Whether a glob has no wildcard.
pub open spec fn is_plain(pattern: Seq<char>) -> bool {
    without(pattern, '*') && without(pattern, '?')
}

proof fn lemma_plain_front(front: Seq<char>, pattern: Seq<char>, text: Seq<char>)
    requires
        is_plain(front),
    ensures
        fits(front + pattern, text) <==> front.is_prefix_of(text) && fits(
            pattern,
            text.skip(front.len() as int),
        ),
    decreases front.len(),
{
    let all = front + pattern;
    if front.len() == 0 {
        assert(all =~= pattern);
        assert(text.skip(0) =~= text);
        assert(front =~= text.subrange(0, 0));
    } else {
        assert(all[0] == front[0]);
        assert(front[0] != '*' && front[0] != '?');
        assert(all.skip(1) =~= front.skip(1) + pattern);
        if text.len() > 0 {
            let rest = text.skip(1);
            assert forall|i: int| 0 <= i < front.skip(1).len() implies front.skip(1)[i] != '*'
                && front.skip(1)[i] != '?' by {
                assert(front.skip(1)[i] == front[i + 1]);
            }
            lemma_plain_front(front.skip(1), pattern, rest);
            if front.len() <= text.len() {
                assert(rest.skip(front.len() - 1) =~= text.skip(front.len() as int));
            }
            if front.is_prefix_of(text) {
                assert(text[0] == front[0]) by {
                    assert(text.subrange(0, front.len() as int)[0] == front[0]);
                }
                assert(front.skip(1) =~= rest.subrange(0, front.len() - 1)) by {
                    assert(front =~= text.subrange(0, front.len() as int));
                }
            }
            if text[0] == front[0] && front.skip(1).is_prefix_of(rest) {
                assert(front =~= text.subrange(0, front.len() as int)) by {
                    assert forall|i: int| 0 <= i < front.len() implies front[i] == text[i] by {
                        if i > 0 {
                            assert(front.skip(1)[i - 1] == rest.subrange(
                                0,
                                front.len() - 1,
                            )[i - 1]);
                        }
                    }
                }
            }
        }
    }
}

proof fn lemma_plain(pattern: Seq<char>, text: Seq<char>)
    requires
        is_plain(pattern),
    ensures
        fits(pattern, text) <==> text == pattern,
{
    lemma_plain_front(pattern, Seq::empty(), text);
    assert(pattern + Seq::<char>::empty() =~= pattern);
    if text == pattern {
        assert(text.skip(pattern.len() as int) =~= Seq::<char>::empty());
        assert(pattern =~= text.subrange(0, pattern.len() as int));
    }
    if fits(pattern, text) {
        assert(text.len() == pattern.len());
        assert(text =~= pattern) by {
            assert(pattern =~= text.subrange(0, pattern.len() as int));
        }
    }
}

/// A glob without wildcards matches itself and nothing else.
pub proof fn law_plain_glob_matches_itself(pattern: Seq<char>, text: Seq<char>)
    requires
        is_plain(pattern),
    ensures
        reads_whole(glob_regex(pattern), text) <==> text == pattern,
{
    law_regex_reads_what_the_glob_matches(pattern, text);
    lemma_plain(pattern, text);
}

/// A star between two names matches any run without a slash between them.
pub proof fn law_star_stays_in_a_directory(front: Seq<char>, back: Seq<char>, text: Seq<char>)
    requires
        is_plain(front),
        is_plain(back),
    ensures
        reads_whole(glob_regex(front + seq!['*'] + back), text) <==> exists|run: Seq<char>|
            without(run, '/') && text == #[trigger] (front + run) + back,
{
    let wild = seq!['*'] + back;
    let pattern = front + seq!['*'] + back;
    let rest = text.skip(front.len() as int);
    assert(pattern =~= front + wild);
    law_regex_reads_what_the_glob_matches(pattern, text);
    lemma_plain_front(front, wild, text);
    assert(wild.skip(1) =~= back);
    if back.len() > 0 {
        assert(wild[1] == back[0]);
        assert(back[0] != '*');
    }
    if front.is_prefix_of(text) && fits(wild, rest) {
        let k = choose|k: int| #![trigger rest.skip(k)]
            0 <= k <= rest.len() && without(rest.take(k), '/') && fits(wild.skip(1), rest.skip(k));
        lemma_plain(back, rest.skip(k));
        let run = rest.take(k);
        assert(text =~= (front + run) + back) by {
            assert(front =~= text.subrange(0, front.len() as int));
            assert(rest =~= run + rest.skip(k));
            assert(text =~= front + rest);
        }
    }
    if exists|run: Seq<char>| without(run, '/') && text == #[trigger] (front + run) + back {
        let run = choose|run: Seq<char>| without(run, '/') && text == #[trigger] (front + run) + back;
        let k = run.len() as int;
        assert(front =~= text.subrange(0, front.len() as int));
        assert(rest.take(k) =~= run);
        assert(rest.skip(k) =~= back);
        lemma_plain(back, rest.skip(k));
        assert(fits(wild.skip(1), rest.skip(k)));
        assert(fits(wild, rest));
    }
}

/// A question mark between two names matches one character that is no slash.
pub proof fn law_question_mark_is_one_character(front: Seq<char>, back: Seq<char>, text: Seq<char>)
    requires
        is_plain(front),
        is_plain(back),
    ensures
        reads_whole(glob_regex(front + seq!['?'] + back), text) <==> exists|c: char|
            c != '/' && text == #[trigger] (front.push(c)) + back,
{
    let wild = seq!['?'] + back;
    let pattern = front + seq!['?'] + back;
    let rest = text.skip(front.len() as int);
    assert(pattern =~= front + wild);
    law_regex_reads_what_the_glob_matches(pattern, text);
    lemma_plain_front(front, wild, text);
    assert(wild.skip(1) =~= back);
    if rest.len() > 0 {
        lemma_plain(back, rest.skip(1));
    }
    if front.is_prefix_of(text) && fits(wild, rest) {
        let c = rest[0];
        assert(text =~= (front.push(c)) + back) by {
            assert(front =~= text.subrange(0, front.len() as int));
            assert(text =~= front + rest);
            assert(rest =~= seq![c] + rest.skip(1));
        }
    }
    if exists|c: char| c != '/' && text == #[trigger] (front.push(c)) + back {
        let c = choose|c: char| c != '/' && text == #[trigger] (front.push(c)) + back;
        assert(front =~= text.subrange(0, front.len() as int));
        assert(rest[0] == c);
        assert(rest.skip(1) =~= back);
    }
}

/// A double star between two names matches any run between them, over any number of directories. A
/// second name that begins with a slash is another matter: see the next law.
pub proof fn law_double_star_crosses_directories(front: Seq<char>, back: Seq<char>, text: Seq<char>)
    requires
        is_plain(front),
        is_plain(back),
        back.len() > 0 ==> back[0] != '/',
    ensures
        reads_whole(glob_regex(front + seq!['*', '*'] + back), text) <==> exists|run: Seq<char>|
            without(run, '\n') && text == #[trigger] (front + run) + back,
{
    let wild = seq!['*', '*'] + back;
    let pattern = front + seq!['*', '*'] + back;
    let rest = text.skip(front.len() as int);
    assert(pattern =~= front + wild);
    law_regex_reads_what_the_glob_matches(pattern, text);
    lemma_plain_front(front, wild, text);
    assert(wild.skip(2) =~= back);
    if back.len() > 0 {
        assert(wild[2] == back[0]);
    }
    if front.is_prefix_of(text) && fits(wild, rest) {
        let k = choose|k: int| #![trigger rest.skip(k)]
            0 <= k <= rest.len() && without(rest.take(k), '\n') && fits(wild.skip(2), rest.skip(k));
        lemma_plain(back, rest.skip(k));
        let run = rest.take(k);
        assert(text =~= (front + run) + back) by {
            assert(front =~= text.subrange(0, front.len() as int));
            assert(rest =~= run + rest.skip(k));
            assert(text =~= front + rest);
        }
    }
    if exists|run: Seq<char>| without(run, '\n') && text == #[trigger] (front + run) + back {
        let run = choose|run: Seq<char>|
            without(run, '\n') && text == #[trigger] (front + run) + back;
        let k = run.len() as int;
        assert(front =~= text.subrange(0, front.len() as int));
        assert(rest.take(k) =~= run);
        assert(rest.skip(k) =~= back);
        lemma_plain(back, rest.skip(k));
        assert(fits(wild.skip(2), rest.skip(k)));
        assert(fits(wild, rest));
    }
}

/// A double star with a slash between two names matches nothing, or any number of directories: any run
/// that ends with a slash.
pub proof fn law_directories_between_names(front: Seq<char>, back: Seq<char>, text: Seq<char>)
    requires
        is_plain(front),
        is_plain(back),
    ensures
        reads_whole(glob_regex(front + seq!['*', '*', '/'] + back), text) <==> text == front + back
            || exists|run: Seq<char>|
            without(run, '\n') && text == #[trigger] (front + run) + seq!['/'] + back,
{
    let wild = seq!['*', '*', '/'] + back;
    let pattern = front + seq!['*', '*', '/'] + back;
    let rest = text.skip(front.len() as int);
    assert(pattern =~= front + wild);
    law_regex_reads_what_the_glob_matches(pattern, text);
    lemma_plain_front(front, wild, text);
    assert(wild.skip(3) =~= back);
    lemma_plain(back, rest);
    if front.is_prefix_of(text) && fits(wild, rest) {
        assert(text =~= front + rest) by {
            assert(front =~= text.subrange(0, front.len() as int));
        }
        if rest != back {
            let k = choose|k: int| #![trigger rest.skip(k + 1)]
                0 <= k < rest.len() && without(rest.take(k), '\n') && rest[k] == '/' && fits(
                    wild.skip(3),
                    rest.skip(k + 1),
                );
            lemma_plain(back, rest.skip(k + 1));
            let run = rest.take(k);
            assert(rest =~= run + seq!['/'] + rest.skip(k + 1));
            assert(text =~= (front + run) + seq!['/'] + back);
        }
    }
    if text == front + back {
        assert(front =~= text.subrange(0, front.len() as int));
        assert(rest =~= back);
        assert(fits(wild, rest));
    }
    if exists|run: Seq<char>|
        without(run, '\n') && text == #[trigger] (front + run) + seq!['/'] + back {
        let run = choose|run: Seq<char>|
            without(run, '\n') && text == #[trigger] (front + run) + seq!['/'] + back;
        let k = run.len() as int;
        assert(front =~= text.subrange(0, front.len() as int));
        assert(rest.take(k) =~= run);
        assert(rest[k] == '/');
        assert(rest.skip(k + 1) =~= back);
        lemma_plain(back, rest.skip(k + 1));
        assert(fits(wild.skip(3), rest.skip(k + 1)));
        assert(fits(wild, rest));
    }
}

/// The usual glob for the files of a kind below a directory matches each of them, however deep below it
/// the file is.
pub proof fn law_files_below_a_directory_match(
    front: Seq<char>,
    directories: Seq<char>,
    name: Seq<char>,
    ending: Seq<char>,
)
    requires
        is_plain(front),
        is_plain(ending),
        without(directories, '\n'),
        without(name, '/'),
    ensures
        reads_whole(
            glob_regex(front + seq!['/', '*', '*', '/', '*'] + ending),
            front + seq!['/'] + directories + seq!['/'] + name + ending,
        ),
        reads_whole(
            glob_regex(front + seq!['/', '*', '*', '/', '*'] + ending),
            front + seq!['/'] + name + ending,
        ),
{
    let root = front.push('/');
    let star = seq!['*'] + ending;
    let wild = seq!['*', '*', '/'] + star;
    let pattern = front + seq!['/', '*', '*', '/', '*'] + ending;
    assert(pattern =~= root + wild);
    assert(is_plain(root));
    assert(wild.skip(3) =~= star);
    assert(star.skip(1) =~= ending);
    if ending.len() > 0 {
        assert(star[1] == ending[0]);
        assert(ending[0] != '*');
    }
    let file = name + ending;
    let k = name.len() as int;
    assert(file.take(k) =~= name);
    assert(file.skip(k) =~= ending);
    lemma_plain(ending, file.skip(k));
    assert(fits(star.skip(1), file.skip(k)));
    assert(fits(star, file));
    let deep = front + seq!['/'] + directories + seq!['/'] + name + ending;
    let below = deep.skip(root.len() as int);
    assert(root =~= deep.subrange(0, root.len() as int));
    let d = directories.len() as int;
    assert(below.take(d) =~= directories);
    assert(below[d] == '/');
    assert(below.skip(d + 1) =~= file);
    assert(fits(wild.skip(3), below.skip(d + 1)));
    assert(fits(wild, below));
    lemma_plain_front(root, wild, deep);
    law_regex_reads_what_the_glob_matches(pattern, deep);
    let flat = front + seq!['/'] + name + ending;
    assert(root =~= flat.subrange(0, root.len() as int));
    assert(flat.skip(root.len() as int) =~= file);
    assert(fits(wild, file));
    lemma_plain_front(root, wild, flat);
    law_regex_reads_what_the_glob_matches(pattern, flat);
}

} // verus!
