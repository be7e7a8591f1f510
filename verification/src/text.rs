//! Character sequences: the helpers shared by the report grammar and the
//! subtitle queries.

use vstd::prelude::*;

verus! {

/// The first position at or after `from` where `s` holds `c`, or the length
/// of `s` when there is none.
pub open spec fn index_of(s: Seq<char>, c: char, from: int) -> int
    decreases s.len() - from,
{
    if from < 0 || from >= s.len() {
        s.len() as int
    } else if s[from] == c {
        from
    } else {
        index_of(s, c, from + 1)
    }
}

/// `index_of` lies between `from` and the length, holds `c` when it is inside
/// the sequence, and nothing between `from` and it holds `c`.
pub proof fn lemma_index_of(s: Seq<char>, c: char, from: int)
    requires
        0 <= from <= s.len(),
    ensures
        from <= index_of(s, c, from) <= s.len(),
        index_of(s, c, from) < s.len() ==> s[index_of(s, c, from)] == c,
        forall|i: int| from <= i < index_of(s, c, from) ==> s[i] != c,
    decreases s.len() - from,
{
    if from < s.len() && s[from] != c {
        lemma_index_of(s, c, from + 1);
    }
}

/// `index_of` is `k` when `k` holds `c`, or is the length, and nothing
/// between `from` and `k` holds `c`.
pub proof fn lemma_index_of_is(s: Seq<char>, c: char, from: int, k: int)
    requires
        0 <= from <= k <= s.len(),
        k < s.len() ==> s[k] == c,
        forall|i: int| from <= i < k ==> s[i] != c,
    ensures
        index_of(s, c, from) == k,
    decreases k - from,
{
    if from < k {
        lemma_index_of_is(s, c, from + 1, k);
    }
}

/// The characters of `s`, in order.
pub fn chars_of(s: &str) -> (v: Vec<char>)
    ensures
        v@ == s@,
{
    let mut v: Vec<char> = Vec::new();
    for c in it: s.chars()
        invariant
            it.seq() == s@,
            v@ == it.seq().take(it.index()),
    {
        v.push(c);
    }
    v
}

/// The first position at or after `from` where the part of `v` between
/// `base` and `to` holds `c`, or `to` when there is none.
pub fn find_char_within(v: &Vec<char>, c: char, base: usize, from: usize, to: usize) -> (r: usize)
    requires
        base <= from <= to <= v.len(),
    ensures
        from <= r <= to,
        r - base == index_of(v@.subrange(base as int, to as int), c, from - base),
{
    let ghost part = v@.subrange(base as int, to as int);
    let mut i: usize = from;
    while i < to && v[i] != c
        invariant
            base <= from <= i <= to <= v.len(),
            part == v@.subrange(base as int, to as int),
            index_of(part, c, from - base) == index_of(part, c, i - base),
        decreases to - i,
    {
        assert(part[i - base] == v[i as int]);
        i += 1;
    }
    proof {
        if i < to {
            assert(part[i - base] == v[i as int]);
        }
    }
    i
}

/// The first position at or after `from` where `v` holds `c`, or the length
/// of `v` when there is none.
pub fn find_char(v: &Vec<char>, c: char, from: usize) -> (r: usize)
    requires
        from <= v.len(),
    ensures
        r == index_of(v@, c, from as int),
        from <= r <= v.len(),
{
    assert(v@.subrange(0, v.len() as int) == v@);
    find_char_within(v, c, 0, from, v.len())
}

/// Whether `p` occurs in `s` as a run of neighbouring characters.
pub open spec fn occurs_in(p: Seq<char>, s: Seq<char>) -> bool {
    exists|i: int| 0 <= i && i + p.len() <= s.len() && #[trigger] s.subrange(i, i + p.len()) == p
}

/// Whether `v` holds `p` from position `at` on.
fn matches_at(v: &Vec<char>, p: &Vec<char>, at: usize) -> (r: bool)
    requires
        at + p.len() <= v.len(),
    ensures
        r == (v@.subrange(at as int, at + p.len()) == p@),
{
    let ghost part = v@.subrange(at as int, at + p.len());
    let mut j: usize = 0;
    while j < p.len()
        invariant
            j <= p.len(),
            at + p.len() <= v.len(),
            part == v@.subrange(at as int, at + p.len()),
            forall|k: int| 0 <= k < j ==> part[k] == p@[k],
        decreases p.len() - j,
    {
        if v[at + j] != p[j] {
            assert(part[j as int] != p@[j as int]);
            return false;
        }
        j += 1;
    }
    assert(part =~= p@);
    true
}

/// Whether `p` occurs in `v`.
pub fn contains_chars(v: &Vec<char>, p: &Vec<char>) -> (r: bool)
    ensures
        r == occurs_in(p@, v@),
{
    if p.len() > v.len() {
        return false;
    }
    if p.len() == 0 {
        assert(v@.subrange(0, 0int + p@.len()) =~= p@);
        return true;
    }
    let last = v.len() - p.len();
    let mut i: usize = 0;
    while i <= last
        invariant
            0 < p.len() <= v.len(),
            last == v.len() - p.len(),
            i <= last + 1,
            forall|k: int| 0 <= k < i ==> #[trigger] v@.subrange(k, k + p.len()) != p@,
        decreases last + 1 - i,
    {
        if matches_at(v, p, i) {
            return true;
        }
        i += 1;
    }
    false
}

} // verus!
