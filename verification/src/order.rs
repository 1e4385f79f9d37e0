//! Sorting of keys made of three numbers.
use vstd::prelude::*;

verus! {

/// A sort key: three numbers, the first being the most significant.
pub type Key = (usize, usize, usize);

/// The lexicographic order of keys.
pub open spec fn key_le(a: Key, b: Key) -> bool {
    a.0 < b.0 || (a.0 == b.0 && (a.1 < b.1 || (a.1 == b.1 && a.2 <= b.2)))
}

/// `sorted` with `x` put in front of the greater keys at its end.
pub open spec fn with_key(sorted: Seq<Key>, x: Key) -> Seq<Key>
    decreases sorted.len(),
{
    if sorted.len() == 0 || key_le(sorted.last(), x) {
        sorted.push(x)
    } else {
        with_key(sorted.drop_last(), x).push(sorted.last())
    }
}

/// The keys of `s` in ascending order.
pub open spec fn sorted_keys(s: Seq<Key>) -> Seq<Key>
    decreases s.len(),
{
    if s.len() == 0 {
        Seq::empty()
    } else {
        with_key(sorted_keys(s.drop_last()), s.last())
    }
}

/// Whether no key comes after a greater one.
pub open spec fn ascending(s: Seq<Key>) -> bool {
    forall|i: int, j: int| 0 <= i < j < s.len() ==> key_le(#[trigger] s[i], #[trigger] s[j])
}

proof fn lemma_with_key(sorted: Seq<Key>, x: Key)
    requires
        ascending(sorted),
    ensures
        with_key(sorted, x).len() == sorted.len() + 1,
        ascending(with_key(sorted, x)),
        with_key(sorted, x).to_multiset() == sorted.to_multiset().insert(x),
        forall|i: int|
            0 <= i < with_key(sorted, x).len() ==> (#[trigger] with_key(sorted, x)[i] == x
                || sorted.contains(with_key(sorted, x)[i])),
    decreases sorted.len(),
{
    broadcast use vstd::seq_lib::group_to_multiset_ensures;

    if sorted.len() == 0 || key_le(sorted.last(), x) {
        assert forall|i: int| 0 <= i < sorted.len() implies sorted.push(x)[i] == x
            || sorted.contains(sorted.push(x)[i]) by {
            assert(sorted[i] == sorted.push(x)[i]);
        }
    } else {
        let front = sorted.drop_last();
        lemma_with_key(front, x);
        let inner = with_key(front, x);
        let all = inner.push(sorted.last());
        assert(front.push(sorted.last()) =~= sorted);
        assert forall|i: int| 0 <= i < inner.len() implies key_le(
            #[trigger] inner[i],
            sorted.last(),
        ) && (inner[i] == x || sorted.contains(inner[i])) by {
            if inner[i] != x {
                let k = choose|k: int| 0 <= k < front.len() && front[k] == inner[i];
                assert(sorted[k] == inner[i]);
            }
        }
        assert(sorted.contains(sorted.last()));
        assert(all.to_multiset() =~= sorted.to_multiset().insert(x));
    }
}

/// Sorting gives an ascending rearrangement of the keys.
pub proof fn lemma_sorted_keys(s: Seq<Key>)
    ensures
        sorted_keys(s).len() == s.len(),
        ascending(sorted_keys(s)),
        sorted_keys(s).to_multiset() == s.to_multiset(),
        forall|x: Key| sorted_keys(s).contains(x) <==> s.contains(x),
    decreases s.len(),
{
    broadcast use vstd::seq_lib::group_to_multiset_ensures;

    if s.len() > 0 {
        lemma_sorted_keys(s.drop_last());
        lemma_with_key(sorted_keys(s.drop_last()), s.last());
        assert(s.drop_last().push(s.last()) =~= s);
    } else {
        assert(sorted_keys(s) =~= s);
    }
    assert forall|x: Key| sorted_keys(s).contains(x) <==> s.contains(x) by {
        assert(sorted_keys(s).contains(x) <==> sorted_keys(s).to_multiset().count(x) > 0);
        assert(s.contains(x) <==> s.to_multiset().count(x) > 0);
    }
}

/// Whether `a` is not greater than `b`.
pub fn not_after(a: &Key, b: &Key) -> (r: bool)
    ensures
        r == key_le(*a, *b),
{
    a.0 < b.0 || (a.0 == b.0 && (a.1 < b.1 || (a.1 == b.1 && a.2 <= b.2)))
}

/// Puts `x` into the sorted keys, in front of the greater ones at the end.
fn insert_key(sorted: &mut Vec<Key>, x: Key)
    ensures
        final(sorted)@ == with_key(old(sorted)@, x),
{
    let mut at: usize = sorted.len();
    let ghost tail = Seq::<Key>::empty();
    assert(sorted@.take(at as int) =~= sorted@);
    assert(with_key(sorted@, x) =~= with_key(sorted@.take(at as int), x) + tail);
    while at > 0 && !not_after(&sorted[at - 1], &x)
        invariant
            at <= sorted@.len(),
            sorted@ == old(sorted)@,
            tail == sorted@.skip(at as int),
            with_key(sorted@, x) == with_key(sorted@.take(at as int), x) + tail,
        decreases at,
    {
        proof {
            let front = sorted@.take(at as int);
            assert(front.drop_last() =~= sorted@.take(at - 1));
            assert(front.last() == sorted@[at - 1]);
            assert(with_key(front, x) == with_key(front.drop_last(), x).push(front.last()));
            let longer = sorted@.skip(at - 1);
            assert(with_key(front, x) + tail =~= with_key(front.drop_last(), x) + longer);
            tail = longer;
        }
        at -= 1;
    }
    assert(with_key(sorted@.take(at as int), x) == sorted@.take(at as int).push(x));
    assert(sorted@.insert(at as int, x) =~= sorted@.take(at as int).push(x) + tail);
    sorted.insert(at, x);
}

/// The keys in ascending order.
pub fn sort_keys(keys: &[Key]) -> (r: Vec<Key>)
    ensures
        r@ == sorted_keys(keys@),
{
    let mut out: Vec<Key> = Vec::new();
    let mut i: usize = 0;
    assert(keys@.take(0) =~= Seq::<Key>::empty());
    while i < keys.len()
        invariant
            i <= keys@.len(),
            out@ == sorted_keys(keys@.take(i as int)),
        decreases keys@.len() - i,
    {
        insert_key(&mut out, keys[i]);
        assert(keys@.take(i + 1).drop_last() =~= keys@.take(i as int));
        i += 1;
    }
    assert(keys@.take(keys@.len() as int) =~= keys@);
    out
}

} // verus!
