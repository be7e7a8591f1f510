//! Stable sorting by an integer key.

use vstd::prelude::*;

use crate::seqs::{lemma_filter_empty, lemma_filter_push};

verus! {

/// Where a new item of key `k` goes into `s`: just after the last item
/// whose key is `k` or less.
pub open spec fn insert_place<A>(s: Seq<A>, key: spec_fn(A) -> int, k: int) -> int
    decreases s.len(),
{
    if s.len() == 0 {
        0
    } else if key(s.last()) <= k {
        s.len() as int
    } else {
        insert_place(s.drop_last(), key, k)
    }
}

/// `s` with `x` put in behind the last item whose key is that of `x` or
/// less.
pub open spec fn stable_insert<A>(s: Seq<A>, key: spec_fn(A) -> int, x: A) -> Seq<A> {
    s.insert(insert_place(s, key, key(x)), x)
}

/// The items of `s` by ascending key; items of one key stay in the order
/// in which `s` holds them.
pub open spec fn stable_sort<A>(s: Seq<A>, key: spec_fn(A) -> int) -> Seq<A>
    decreases s.len(),
{
    if s.len() == 0 {
        s
    } else {
        stable_insert(stable_sort(s.drop_last(), key), key, s.last())
    }
}

/// Whether the keys of `s` never fall from one item to the next.
pub open spec fn is_sorted<A>(s: Seq<A>, key: spec_fn(A) -> int) -> bool {
    forall|i: int, j: int| 0 <= i <= j < s.len() ==> key(#[trigger] s[i]) <= key(#[trigger] s[j])
}

/// The test that picks the items of key `k`.
pub open spec fn has_key<A>(key: spec_fn(A) -> int, k: int) -> spec_fn(A) -> bool {
    |a: A| key(a) == k
}

/// The items of `s` whose key is `k`, in the order of `s`.
pub open spec fn of_key<A>(s: Seq<A>, key: spec_fn(A) -> int, k: int) -> Seq<A> {
    s.filter(has_key(key, k))
}

/// The place of a new item is a position of `s` or its length; every item
/// from there on has a greater key and, in a sorted `s`, no item before it
/// has.
pub proof fn lemma_insert_place<A>(s: Seq<A>, key: spec_fn(A) -> int, k: int)
    ensures
        0 <= insert_place(s, key, k) <= s.len(),
        forall|i: int| insert_place(s, key, k) <= i < s.len() ==> key(#[trigger] s[i]) > k,
        is_sorted(s, key) ==> forall|i: int|
            0 <= i < insert_place(s, key, k) ==> key(#[trigger] s[i]) <= k,
    decreases s.len(),
{
    if s.len() > 0 && key(s.last()) > k {
        let rest = s.drop_last();
        lemma_insert_place(rest, key, k);
        assert forall|i: int| insert_place(s, key, k) <= i < s.len() implies key(#[trigger] s[i])
            > k by {
            if i < rest.len() {
                assert(s[i] == rest[i]);
            }
        }
        if is_sorted(s, key) {
            assert forall|i: int, j: int| 0 <= i <= j < rest.len() implies key(#[trigger] rest[i])
                <= key(#[trigger] rest[j]) by {
                assert(rest[i] == s[i] && rest[j] == s[j]);
            }
            assert forall|i: int| 0 <= i < insert_place(s, key, k) implies key(#[trigger] s[i])
                <= k by {
                assert(s[i] == rest[i]);
            }
        }
    } else if s.len() > 0 {
        if is_sorted(s, key) {
            assert forall|i: int| 0 <= i < s.len() implies key(#[trigger] s[i]) <= k by {
                assert(key(s[i]) <= key(s[s.len() - 1]));
            }
        }
    }
}

/// Putting an item into a sorted sequence leaves it sorted.
pub proof fn lemma_stable_insert_sorted<A>(s: Seq<A>, key: spec_fn(A) -> int, x: A)
    requires
        is_sorted(s, key),
    ensures
        is_sorted(stable_insert(s, key, x), key),
{
    let p = insert_place(s, key, key(x));
    let out = stable_insert(s, key, x);
    lemma_insert_place(s, key, key(x));
    assert forall|i: int, j: int| 0 <= i <= j < out.len() implies key(#[trigger] out[i]) <= key(
        #[trigger] out[j],
    ) by {
        let a = if i < p { s[i] } else if i == p { x } else { s[i - 1] };
        let b = if j < p { s[j] } else if j == p { x } else { s[j - 1] };
        assert(out[i] == a && out[j] == b);
        if i < p && j > p {
            assert(key(s[i]) <= key(x) && key(x) < key(s[j - 1]));
        }
    }
}

/// Sorting gives a sorted sequence of the same length.
pub proof fn lemma_stable_sort_sorted<A>(s: Seq<A>, key: spec_fn(A) -> int)
    ensures
        is_sorted(stable_sort(s, key), key),
        stable_sort(s, key).len() == s.len(),
    decreases s.len(),
{
    if s.len() > 0 {
        lemma_stable_sort_sorted(s.drop_last(), key);
        lemma_insert_place(stable_sort(s.drop_last(), key), key, key(s.last()));
        lemma_stable_insert_sorted(stable_sort(s.drop_last(), key), key, s.last());
    }
}

/// Putting `x` into a sorted sequence adds it behind the items of its own
/// key and leaves the items of every other key as they were.
pub proof fn lemma_stable_insert_of_key<A>(s: Seq<A>, key: spec_fn(A) -> int, x: A, k: int)
    requires
        is_sorted(s, key),
    ensures
        of_key(stable_insert(s, key, x), key, k) == if key(x) == k {
            of_key(s, key, k).push(x)
        } else {
            of_key(s, key, k)
        },
{
    let p = insert_place(s, key, key(x));
    let test = has_key(key, k);
    lemma_insert_place(s, key, key(x));
    let head = s.take(p);
    let tail = s.skip(p);
    assert(s =~= head + tail);
    assert(stable_insert(s, key, x) =~= head.push(x) + tail);
    Seq::filter_distributes_over_add(head, tail, test);
    Seq::filter_distributes_over_add(head.push(x), tail, test);
    lemma_filter_push(head, test, x);
    if key(x) == k {
        assert forall|i: int| 0 <= i < tail.len() implies !test(#[trigger] tail[i]) by {
            assert(tail[i] == s[p + i]);
        }
        tail.lemma_all_neg_filter_empty(test);
        assert(tail.filter(test) =~= Seq::empty());
        assert(head.filter(test).push(x) + tail.filter(test) =~= (head.filter(test) + tail.filter(
            test,
        )).push(x));
    }
}

/// Sorting is stable: the items of any one key come out in the order in
/// which they went in.
pub proof fn lemma_stable_sort_of_key<A>(s: Seq<A>, key: spec_fn(A) -> int, k: int)
    ensures
        of_key(stable_sort(s, key), key, k) == of_key(s, key, k),
    decreases s.len(),
{
    if s.len() > 0 {
        let rest = s.drop_last();
        lemma_stable_sort_of_key(rest, key, k);
        lemma_stable_sort_sorted(rest, key);
        lemma_stable_insert_of_key(stable_sort(rest, key), key, s.last(), k);
        lemma_filter_push(rest, has_key(key, k), s.last());
        assert(rest.push(s.last()) =~= s);
    } else {
        lemma_filter_empty(has_key(key, k));
    }
}

/// Sorting neither drops nor adds an item.
pub proof fn lemma_stable_sort_permutes<A>(s: Seq<A>, key: spec_fn(A) -> int)
    ensures
        stable_sort(s, key).to_multiset() == s.to_multiset(),
    decreases s.len(),
{
    broadcast use vstd::seq_lib::group_to_multiset_ensures;

    if s.len() > 0 {
        let rest = s.drop_last();
        let sorted = stable_sort(rest, key);
        lemma_stable_sort_permutes(rest, key);
        lemma_insert_place(sorted, key, key(s.last()));
        let p = insert_place(sorted, key, key(s.last()));
        let out = sorted.insert(p, s.last());
        assert(rest.push(s.last()) =~= s);
        assert(out.remove(p) =~= sorted);
        assert(out[p] == s.last());
        assert(out.to_multiset() =~= sorted.to_multiset().insert(s.last()));
    }
}

/// Sorting a sequence of images gives the images of the sorted sequence,
/// when the key of an image is the key of what it is the image of.
pub proof fn lemma_stable_sort_map<A, B>(
    s: Seq<A>,
    f: spec_fn(A) -> B,
    key: spec_fn(A) -> int,
    image_key: spec_fn(B) -> int,
)
    requires
        forall|a: A| #[trigger] key(a) == image_key(f(a)),
    ensures
        stable_sort(s.map_values(f), image_key) == stable_sort(s, key).map_values(f),
    decreases s.len(),
{
    if s.len() > 0 {
        let rest = s.drop_last();
        lemma_stable_sort_map(rest, f, key, image_key);
        assert(s.map_values(f).drop_last() =~= rest.map_values(f));
        assert(s.map_values(f).last() == f(s.last()));
        let sorted = stable_sort(rest, key);
        lemma_insert_place_map(sorted, f, key, image_key, key(s.last()));
        lemma_insert_place(sorted, key, key(s.last()));
        let p = insert_place(sorted, key, key(s.last()));
        assert(sorted.map_values(f).insert(p, f(s.last())) =~= sorted.insert(p, s.last()).map_values(
            f,
        ));
    } else {
        assert(s.map_values(f) =~= Seq::empty());
        assert(stable_sort(s, key).map_values(f) =~= Seq::empty());
    }
}

/// The place of a new item among images is its place among what they are
/// the images of.
pub proof fn lemma_insert_place_map<A, B>(
    s: Seq<A>,
    f: spec_fn(A) -> B,
    key: spec_fn(A) -> int,
    image_key: spec_fn(B) -> int,
    k: int,
)
    requires
        forall|a: A| #[trigger] key(a) == image_key(f(a)),
    ensures
        insert_place(s.map_values(f), image_key, k) == insert_place(s, key, k),
    decreases s.len(),
{
    if s.len() > 0 {
        assert(s.map_values(f).drop_last() =~= s.drop_last().map_values(f));
        assert(s.map_values(f).last() == f(s.last()));
        assert(key(s.last()) == image_key(f(s.last())));
        lemma_insert_place_map(s.drop_last(), f, key, image_key, k);
    }
}

/// Sorts `items` by the keys that `keys` holds for them, position by
/// position; items of one key stay in their order.
pub(crate) fn sort_by_keys<T>(
    items: &mut Vec<T>,
    keys: &mut Vec<i128>,
    Ghost(key): Ghost<spec_fn(T) -> int>,
)
    requires
        old(keys).len() == old(items).len(),
        forall|i: int| 0 <= i < old(items).len() ==> old(keys)[i] == key(#[trigger] old(items)[i]),
    ensures
        final(items)@ == stable_sort(old(items)@, key),
        final(keys).len() == final(items).len(),
        forall|i: int| 0 <= i < final(items).len() ==> final(keys)[i] == key(#[trigger] final(items)[i]),
{
    let ghost start = items@;
    let n = items.len();
    let mut i: usize = 0;
    proof {
        assert(start.take(0) =~= Seq::empty());
        assert(items@.take(0) =~= stable_sort(start.take(0), key));
    }
    while i < n
        invariant
            i <= n,
            n == start.len(),
            items.len() == n,
            keys.len() == n,
            forall|j: int| 0 <= j < n ==> keys[j] == key(#[trigger] items[j]),
            items@.take(i as int) == stable_sort(start.take(i as int), key),
            items@.skip(i as int) == start.skip(i as int),
        decreases n - i,
    {
        let ghost prefix = items@.take(i as int);
        let ghost before = items@;
        let ghost keys_before = keys@;
        let x = items.remove(i);
        let k = keys.remove(i);
        proof {
            assert(x == start[i as int]) by {
                assert(before.skip(i as int)[0] == start.skip(i as int)[0]);
            }
            assert(items@.take(i as int) =~= prefix);
            assert(prefix.take(i as int) =~= prefix);
        }
        let mut p: usize = i;
        while p > 0 && keys[p - 1] > k
            invariant
                p <= i < n,
                items.len() == n - 1,
                keys.len() == n - 1,
                k == key(x),
                before.len() == n,
                keys_before.len() == n,
                keys@ == keys_before.remove(i as int),
                items@ == before.remove(i as int),
                prefix == before.take(i as int),
                forall|j: int| 0 <= j < n ==> keys_before[j] == key(#[trigger] before[j]),
                insert_place(prefix, key, k as int) == insert_place(prefix.take(p as int), key, k as int),
            decreases p,
        {
            proof {
                let part = prefix.take(p as int);
                assert(part.last() == before[p - 1]);
                assert(keys[p - 1] == keys_before[p - 1]);
                assert(part.drop_last() =~= prefix.take(p - 1));
            }
            p -= 1;
        }
        proof {
            let part = prefix.take(p as int);
            if p > 0 {
                assert(part.last() == before[p - 1]);
                assert(keys[p - 1] == keys_before[p - 1]);
            }
            assert(insert_place(prefix, key, k as int) == p);
        }
        items.insert(p, x);
        keys.insert(p, k);
        proof {
            let next = start.take(i + 1);
            assert(next.drop_last() =~= start.take(i as int));
            assert(next.last() == x);
            assert(items@.take(i + 1) =~= prefix.insert(p as int, x));
            assert(items@.skip(i + 1) =~= start.skip(i + 1)) by {
                assert forall|j: int| 0 <= j < n - i - 1 implies #[trigger] items@.skip(i + 1)[j]
                    == start.skip(i + 1)[j] by {
                    assert(before.skip(i as int)[j + 1] == start.skip(i as int)[j + 1]);
                }
            }
            assert forall|j: int| 0 <= j < n implies keys[j] == key(#[trigger] items[j]) by {
                if j < p {
                    assert(items[j] == before[j]);
                } else if j == p {
                } else if j <= i {
                    assert(items[j] == before[j - 1]);
                } else {
                    assert(items[j] == before[j]);
                }
            }
        }
        i += 1;
    }
    proof {
        assert(items@.take(n as int) =~= items@);
        assert(start.take(n as int) =~= start);
    }
}

} // verus!
