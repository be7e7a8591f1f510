//! Whole-second timecodes written `HH:MM:SS`.

use hhmmss::Hhmmss;
use vstd::prelude::*;

use crate::text::{chars_of, find_char_within, index_of, lemma_index_of_is};

verus! {

/// The largest number of seconds a [`Timecode`] can hold.
pub const MAX_SECONDS: u64 = 0x7fff_ffff_ffff_ffff;

/// Whether `c` is one of the ASCII digits `0` to `9`.
pub open spec fn is_digit(c: char) -> bool {
    '0' <= c && c <= '9'
}

/// The number that the digit `c` stands for.
pub open spec fn digit_value(c: char) -> nat
    recommends
        is_digit(c),
{
    (c as u32 - '0' as u32) as nat
}

/// The digit that stands for `d`.
pub open spec fn digit_char(d: nat) -> char
    recommends
        d < 10,
{
    ('0' as u8 + d) as u8 as char
}

/// Whether every character of `s` is a digit.
pub open spec fn all_digits(s: Seq<char>) -> bool {
    forall|i: int| 0 <= i < s.len() ==> is_digit(#[trigger] s[i])
}

/// Whether `s` is a non-empty run of digits.
pub open spec fn is_number(s: Seq<char>) -> bool {
    s.len() > 0 && all_digits(s)
}

/// The number written by the digits `s`, read in base ten.
pub open spec fn decimal_value(s: Seq<char>) -> nat
    decreases s.len(),
{
    if s.len() == 0 {
        0
    } else {
        decimal_value(s.drop_last()) * 10 + digit_value(s.last())
    }
}

/// The shortest base-ten writing of `n`.
pub open spec fn decimal_digits(n: nat) -> Seq<char>
    decreases n,
{
    if n < 10 {
        seq![digit_char(n)]
    } else {
        decimal_digits(n / 10).push(digit_char(n % 10))
    }
}

/// `n` in base ten, with a leading zero when it is below ten.
pub open spec fn two_digits(n: nat) -> Seq<char> {
    if n < 10 {
        seq!['0'] + decimal_digits(n)
    } else {
        decimal_digits(n)
    }
}

/// The canonical writing of `secs` seconds: hours, minutes and seconds, each
/// of at least two digits, joined by colons.
pub open spec fn hhmmss_text(secs: nat) -> Seq<char> {
    two_digits(secs / 3600) + seq![':'] + two_digits(secs % 3600 / 60) + seq![':'] + two_digits(
        secs % 60,
    )
}

/// The seconds that the token `t` stands for, when it is a timecode.
///
/// A timecode is three non-empty runs of digits separated by two colons; the
/// second and third run stay below sixty, and the total stays within
/// [`MAX_SECONDS`]. The hour field has no bound of its own.
pub open spec fn timecode_seconds(t: Seq<char>) -> Option<nat> {
    let a = index_of(t, ':', 0);
    let b = index_of(t, ':', a + 1);
    let h = t.subrange(0, a);
    let m = t.subrange(a + 1, b);
    let s = t.subrange(b + 1, t.len() as int);
    let total = decimal_value(h) * 3600 + decimal_value(m) * 60 + decimal_value(s);
    if a < t.len() && b < t.len() && is_number(h) && is_number(m) && is_number(s)
        && decimal_value(m) < 60 && decimal_value(s) < 60 && total <= MAX_SECONDS {
        Some(total)
    } else {
        None
    }
}

/// A non-negative duration in whole seconds.
#[derive(Clone, Copy, Debug, PartialEq, Eq, Structural)]
pub struct Timecode {
    secs: u64,
}

impl View for Timecode {
    type V = nat;

    closed spec fn view(&self) -> nat {
        self.secs as nat
    }
}

/// Whether `c` is an ASCII digit.
pub fn char_is_digit(c: char) -> (r: bool)
    ensures
        r == is_digit(c),
{
    '0' <= c && c <= '9'
}

/// Reading a longer run of digits never gives a smaller number.
pub proof fn lemma_decimal_value_monotonic(s: Seq<char>, k: int)
    requires
        0 <= k <= s.len(),
    ensures
        decimal_value(s.subrange(0, k)) <= decimal_value(s),
    decreases s.len(),
{
    if k == s.len() {
        assert(s.subrange(0, k) == s);
    } else {
        lemma_decimal_value_monotonic(s.drop_last(), k);
        assert(s.drop_last().subrange(0, k) == s.subrange(0, k));
    }
}

/// The shortest writing of a number is a run of digits that reads as that
/// number.
pub proof fn lemma_decimal_digits(n: nat)
    ensures
        is_number(decimal_digits(n)),
        decimal_value(decimal_digits(n)) == n,
        n < 10 ==> decimal_digits(n).len() == 1,
        10 <= n ==> decimal_digits(n).len() >= 2,
        10 <= n < 100 ==> decimal_digits(n).len() == 2,
    decreases n,
{
    let d = decimal_digits(n);
    if n < 10 {
        assert(d.drop_last() =~= Seq::<char>::empty());
        assert(decimal_value(d.drop_last()) == 0);
        assert(d.last() == digit_char(n));
    } else {
        lemma_decimal_digits(n / 10);
        let head = decimal_digits(n / 10);
        assert(d.drop_last() =~= head);
        assert(d.last() == digit_char(n % 10));
        assert forall|i: int| 0 <= i < d.len() implies is_digit(#[trigger] d[i]) by {
            if i < head.len() {
                assert(d[i] == head[i]);
            }
        }
    }
}

/// A number written with two digits or more is a run of digits that reads
/// as that number; below a hundred it has exactly two digits.
pub proof fn lemma_two_digits(n: nat)
    ensures
        is_number(two_digits(n)),
        decimal_value(two_digits(n)) == n,
        two_digits(n).len() >= 2,
        n < 100 ==> two_digits(n).len() == 2,
{
    lemma_decimal_digits(n);
    let d = two_digits(n);
    if n < 10 {
        let one = decimal_digits(n);
        assert(d =~= seq!['0', one[0]]);
        assert(d.drop_last() =~= seq!['0']);
        assert(seq!['0'].drop_last() =~= Seq::<char>::empty());
        assert(decimal_value(seq!['0']) == 0) by {
            assert(decimal_value(Seq::<char>::empty()) == 0);
        }
        assert(one.drop_last() =~= Seq::<char>::empty());
        assert(decimal_value(one.drop_last()) == 0);
    }
}

/// The canonical writing of a timecode reads as that timecode.
pub proof fn lemma_hhmmss_round_trip(secs: nat)
    requires
        secs <= MAX_SECONDS,
    ensures
        timecode_seconds(hhmmss_text(secs)) == Some(secs),
{
    let h = two_digits(secs / 3600);
    let m = two_digits(secs % 3600 / 60);
    let s = two_digits(secs % 60);
    let t = hhmmss_text(secs);
    lemma_two_digits(secs / 3600);
    lemma_two_digits(secs % 3600 / 60);
    lemma_two_digits(secs % 60);
    let a = h.len() as int;
    let b = a + 3;
    assert(t.len() == a + 6);
    assert(t[a] == ':');
    assert(t[b] == ':');
    assert forall|i: int| 0 <= i < a implies t[i] != ':' by {
        assert(t[i] == h[i]);
    }
    assert forall|i: int| a + 1 <= i < b implies t[i] != ':' by {
        assert(t[i] == m[i - a - 1]);
    }
    lemma_index_of_is(t, ':', 0, a);
    lemma_index_of_is(t, ':', a + 1, b);
    assert(t.subrange(0, a) =~= h);
    assert(t.subrange(a + 1, b) =~= m);
    assert(t.subrange(b + 1, t.len() as int) =~= s);
    assert(secs / 3600 * 3600 + secs % 3600 / 60 * 60 + secs % 60 == secs);
}

/// Reads the digits of `v` between `from` and `to` as a number, as long as
/// it stays within `limit`.
fn read_number(v: &Vec<char>, from: usize, to: usize, limit: u64) -> (r: Option<u64>)
    requires
        from <= to <= v.len(),
        limit <= MAX_SECONDS,
    ensures
        r matches Some(n) ==> is_number(v@.subrange(from as int, to as int)) && n
            == decimal_value(v@.subrange(from as int, to as int)) && n <= limit,
        r is None ==> !is_number(v@.subrange(from as int, to as int)) || decimal_value(
            v@.subrange(from as int, to as int),
        ) > limit,
{
    let ghost field = v@.subrange(from as int, to as int);
    if from == to {
        return None;
    }
    let mut acc: u64 = 0;
    let mut i: usize = from;
    while i < to
        invariant
            from <= i <= to <= v.len(),
            limit <= MAX_SECONDS,
            field == v@.subrange(from as int, to as int),
            all_digits(field.subrange(0, i - from)),
            acc == decimal_value(field.subrange(0, i - from)),
            acc <= limit,
        decreases to - i,
    {
        let c = v[i];
        if !char_is_digit(c) {
            assert(field[i - from] == c);
            return None;
        }
        let d: u64 = (c as u32 - '0' as u32) as u64;
        let ghost next = field.subrange(0, i - from + 1);
        proof {
            assert(next.drop_last() == field.subrange(0, i - from));
            assert(next.last() == c);
            assert(decimal_value(next) == acc * 10 + d);
            assert forall|j: int| 0 <= j < next.len() implies is_digit(#[trigger] next[j]) by {
                if j < i - from {
                    assert(field.subrange(0, i - from)[j] == next[j]);
                }
            }
        }
        if acc as u128 * 10 + d as u128 > limit as u128 {
            proof {
                lemma_decimal_value_monotonic(field, i - from + 1);
            }
            return None;
        }
        acc = acc * 10 + d;
        i += 1;
    }
    proof {
        assert(field.subrange(0, to - from) == field);
    }
    Some(acc)
}

impl Timecode {
    #[verifier::type_invariant]
    spec fn within_limit(self) -> bool {
        self.secs <= MAX_SECONDS
    }

    /// The timecode of `secs` seconds, unless that is more than
    /// [`MAX_SECONDS`].
    pub fn from_secs(secs: u64) -> (r: Option<Timecode>)
        ensures
            match r {
                Some(t) => secs <= MAX_SECONDS && t@ == secs,
                None => secs > MAX_SECONDS,
            },
    {
        if secs <= MAX_SECONDS {
            Some(Timecode { secs })
        } else {
            None
        }
    }

    /// The number of seconds.
    pub fn as_secs(&self) -> (r: u64)
        ensures
            r == self@,
            r <= MAX_SECONDS,
    {
        proof {
            use_type_invariant(self);
        }
        self.secs
    }

    /// Decodes a token such as `01:02:03`.
    pub fn parse(token: &str) -> (r: Option<Timecode>)
        ensures
            match r {
                Some(t) => timecode_seconds(token@) == Some(t@),
                None => timecode_seconds(token@) is None,
            },
    {
        let v = chars_of(token);
        assert(v@.subrange(0, v.len() as int) == token@);
        Self::decode(&v, 0, v.len())
    }

    /// Decodes the token that `v` holds between `from` and `to`.
    pub fn decode(v: &Vec<char>, from: usize, to: usize) -> (r: Option<Timecode>)
        requires
            from <= to <= v.len(),
        ensures
            match r {
                Some(t) => timecode_seconds(v@.subrange(from as int, to as int)) == Some(t@),
                None => timecode_seconds(v@.subrange(from as int, to as int)) is None,
            },
    {
        let ghost t = v@.subrange(from as int, to as int);
        let a = find_char_within(v, ':', from, from, to);
        if a >= to {
            return None;
        }
        let b = find_char_within(v, ':', from, a + 1, to);
        if b >= to {
            return None;
        }
        proof {
            assert(t.subrange(0, a - from) == v@.subrange(from as int, a as int));
            assert(t.subrange(a - from + 1, b - from) == v@.subrange(a + 1, b as int));
            assert(t.subrange(b - from + 1, t.len() as int) == v@.subrange(b + 1, to as int));
        }
        let hours = match read_number(v, from, a, MAX_SECONDS / 3600) {
            Some(h) => h,
            None => {
                return None;
            },
        };
        let minutes = match read_number(v, a + 1, b, 59) {
            Some(m) => m,
            None => {
                return None;
            },
        };
        let seconds = match read_number(v, b + 1, to, 59) {
            Some(s) => s,
            None => {
                return None;
            },
        };
        let total: u64 = hours * 3600 + minutes * 60 + seconds;
        if total > MAX_SECONDS {
            return None;
        }
        Some(Timecode { secs: total })
    }

    /// The timecode written as `HH:MM:SS`.
    pub fn hhmmss(&self) -> (r: String)
        ensures
            r@ == hhmmss_text(self@),
    {
        duration_hhmmss(self.as_secs())
    }
}

/// `Hhmmss::hhmmss` of the `hhmmss` crate, on a `std::time::Duration` of
/// `secs` whole seconds. It splits the seconds into hours, minutes and
/// seconds and writes each with at least two digits, colons between them.
/// A duration beyond [`MAX_SECONDS`] would be taken for a negative one, so
/// the call is kept to the others.
#[verifier::external_body]
fn duration_hhmmss(secs: u64) -> (r: String)
    requires
        secs <= MAX_SECONDS,
    ensures
        r@ == hhmmss_text(secs as nat),
{
    std::time::Duration::from_secs(secs).hhmmss()
}

} // verus!
