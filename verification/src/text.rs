//! Small operations on byte strings: comparing, trimming, searching, and
//! writing numbers in decimal.

use crate::scanner::{LINE_FEED, SPACE, TAB};
use vstd::prelude::*;
use vstd::slice::slice_subrange;

verus! {

/// Whether `a` and `b` hold the same bytes.
pub fn bytes_eq(a: &[u8], b: &[u8]) -> (same: bool)
    ensures
        same == (a@ == b@),
{
    if a.len() != b.len() {
        return false;
    }
    let mut i: usize = 0;
    while i < a.len()
        invariant
            i <= a@.len(),
            a@.len() == b@.len(),
            forall|j: int| 0 <= j < i ==> a@[j] == b@[j],
        decreases a@.len() - i,
    {
        if a[i] != b[i] {
            return false;
        }
        i = i + 1;
    }
    assert(a@ =~= b@);
    true
}

/// Appends the bytes of `s` to `out`.
pub fn push_bytes(out: &mut Vec<u8>, s: &[u8])
    ensures
        final(out)@ == old(out)@ + s@,
{
    let mut i: usize = 0;
    while i < s.len()
        invariant
            i <= s@.len(),
            out@ == old(out)@ + s@.subrange(0, i as int),
        decreases s@.len() - i,
    {
        out.push(s[i]);
        i = i + 1;
        assert(out@ =~= old(out)@ + s@.subrange(0, i as int));
    }
    assert(s@.subrange(0, s@.len() as int) =~= s@);
}

/// A byte that is cut off the ends of a filter's name and of its
/// arguments: space, tab or line feed.
pub open spec fn is_padding(b: u8) -> bool {
    b == SPACE || b == LINE_FEED || b == TAB
}

/// The first position from `i` on at which `s` holds no padding byte; the
/// length of `s` if there is none.
pub open spec fn padding_end(s: Seq<u8>, i: int) -> int
    decreases s.len() - i,
{
    if 0 <= i < s.len() && is_padding(s[i]) {
        padding_end(s, i + 1)
    } else {
        i
    }
}

/// The least `k` such that `s` holds only padding from `k` up to `j`.
pub open spec fn padding_start(s: Seq<u8>, j: int) -> int
    decreases j,
{
    if 0 < j <= s.len() && is_padding(s[j - 1]) {
        padding_start(s, j - 1)
    } else {
        j
    }
}

/// `s` without the padding at its two ends.
pub open spec fn trimmed(s: Seq<u8>) -> Seq<u8> {
    let begin = padding_end(s, 0);
    if begin >= s.len() {
        Seq::empty()
    } else {
        s.subrange(begin, padding_start(s, s.len() as int))
    }
}

/// Between its two ends, `padding_start` stays at or above any position
/// that holds a byte which is not padding.
proof fn lemma_padding_start_above(s: Seq<u8>, j: int, k: int)
    requires
        0 <= k < j <= s.len(),
        !is_padding(s[k]),
    ensures
        k < padding_start(s, j) <= j,
    decreases j,
{
    if is_padding(s[j - 1]) {
        lemma_padding_start_above(s, j - 1, k);
    }
}

/// The part of `s` that is left when the padding at both ends is cut off.
pub fn trim<'a>(s: &'a [u8]) -> (t: &'a [u8])
    ensures
        t@ == trimmed(s@),
{
    let mut begin: usize = 0;
    while begin < s.len() && (s[begin] == SPACE || s[begin] == LINE_FEED || s[begin] == TAB)
        invariant
            begin <= s@.len(),
            padding_end(s@, 0) == padding_end(s@, begin as int),
        decreases s@.len() - begin,
    {
        begin = begin + 1;
    }
    if begin >= s.len() {
        return slice_subrange(s, 0, 0);
    }
    let mut end: usize = s.len();
    proof {
        lemma_padding_start_above(s@, s@.len() as int, begin as int);
    }
    while end > 0 && (s[end - 1] == SPACE || s[end - 1] == LINE_FEED || s[end - 1] == TAB)
        invariant
            end <= s@.len(),
            padding_start(s@, s@.len() as int) == padding_start(s@, end as int),
            begin < padding_start(s@, s@.len() as int),
        decreases end,
    {
        end = end - 1;
    }
    slice_subrange(s, begin, end)
}

/// Whether `needle` stands in `hay` at position `i`.
pub open spec fn occurs_at(hay: Seq<u8>, needle: Seq<u8>, i: int) -> bool {
    0 <= i && i + needle.len() <= hay.len() && hay.subrange(i, i + needle.len()) == needle
}

/// Whether `needle` stands somewhere in `hay`.
pub open spec fn contains_bytes(hay: Seq<u8>, needle: Seq<u8>) -> bool {
    exists|i: int| occurs_at(hay, needle, i)
}

/// Whether the bytes of `needle` stand somewhere in `hay`, one after the
/// other.
pub fn contains(hay: &[u8], needle: &[u8]) -> (found: bool)
    ensures
        found == contains_bytes(hay@, needle@),
{
    if needle.len() > hay.len() {
        assert(forall|i: int| !occurs_at(hay@, needle@, i));
        return false;
    }
    let last: usize = hay.len() - needle.len();
    let mut i: usize = 0;
    while i < last
        invariant
            last + needle@.len() == hay@.len(),
            hay@.len() <= usize::MAX,
            i <= last,
            forall|j: int| 0 <= j < i ==> !occurs_at(hay@, needle@, j),
        decreases last - i,
    {
        if bytes_eq(slice_subrange(hay, i, i + needle.len()), needle) {
            assert(occurs_at(hay@, needle@, i as int));
            return true;
        }
        i = i + 1;
    }
    let found = bytes_eq(slice_subrange(hay, last, hay.len()), needle);
    proof {
        if found {
            assert(occurs_at(hay@, needle@, last as int));
        } else {
            assert(forall|j: int| !occurs_at(hay@, needle@, j));
        }
    }
    found
}

/// The decimal digits of `n`, most significant first, as ASCII bytes.
pub open spec fn decimal(n: nat) -> Seq<u8>
    decreases n,
{
    if n < 10 {
        seq![(48 + n) as u8]
    } else {
        decimal(n / 10).push((48 + n % 10) as u8)
    }
}

/// Appends `n` in decimal to `out`.
pub fn push_decimal(out: &mut Vec<u8>, n: usize)
    ensures
        final(out)@ == old(out)@ + decimal(n as nat),
{
    let mut digits: Vec<u8> = Vec::new();
    let mut rest: usize = n;
    // `digits` holds the low digits of `n`, least significant first.
    let ghost mut low: Seq<u8> = Seq::empty();
    while rest >= 10
        invariant
            digits@.len() == low.len(),
            forall|k: int| 0 <= k < low.len() ==> digits@[k] == low[low.len() - 1 - k],
            decimal(n as nat) == decimal(rest as nat) + low,
        decreases rest,
    {
        let d: u8 = (rest % 10) as u8 + 48;
        proof {
            assert(decimal(rest as nat) == decimal((rest / 10) as nat).push(d));
            assert(decimal((rest / 10) as nat).push(d) + low =~= decimal((rest / 10) as nat) + (
            seq![d] + low));
            low = seq![d] + low;
        }
        digits.push(d);
        rest = rest / 10;
    }
    let top: u8 = rest as u8 + 48;
    out.push(top);
    assert(decimal(rest as nat) =~= seq![top]);
    let mut k: usize = digits.len();
    while k > 0
        invariant
            k <= digits@.len(),
            digits@.len() == low.len(),
            forall|j: int| 0 <= j < low.len() ==> digits@[j] == low[low.len() - 1 - j],
            out@ == old(out)@ + seq![top] + low.subrange(0, low.len() - k),
        decreases k,
    {
        k = k - 1;
        out.push(digits[k]);
        assert(out@ =~= old(out)@ + seq![top] + low.subrange(0, low.len() - k));
    }
    assert(low.subrange(0, low.len() as int) =~= low);
    assert(old(out)@ + seq![top] + low =~= old(out)@ + (seq![top] + low));
}

} // verus!
