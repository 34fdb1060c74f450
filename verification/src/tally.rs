//! Counting the elements of a sequence that pass a test.

use vstd::prelude::*;

verus! {

/// How many elements of `s` the test `hit` accepts.
pub open spec fn tally<A>(s: Seq<A>, hit: spec_fn(A) -> bool) -> nat
    decreases s.len(),
{
    if s.len() == 0 {
        0
    } else {
        tally(s.drop_last(), hit) + if hit(s.last()) {
            1nat
        } else {
            0nat
        }
    }
}

/// One more element at the end counts if the test accepts it.
pub proof fn lemma_tally_push<A>(s: Seq<A>, x: A, hit: spec_fn(A) -> bool)
    ensures
        tally(s.push(x), hit) == tally(s, hit) + if hit(x) {
            1nat
        } else {
            0nat
        },
{
    assert(s.push(x).drop_last() =~= s);
}

/// The count of two sequences, one after the other, is the sum of their
/// counts.
pub proof fn lemma_tally_concat<A>(a: Seq<A>, b: Seq<A>, hit: spec_fn(A) -> bool)
    ensures
        tally(a + b, hit) == tally(a, hit) + tally(b, hit),
    decreases b.len(),
{
    if b.len() == 0 {
        assert(a + b =~= a);
    } else {
        assert((a + b).drop_last() =~= a + b.drop_last());
        lemma_tally_concat(a, b.drop_last(), hit);
    }
}

/// Taking one element out takes it out of the count if the test accepts it.
pub proof fn lemma_tally_remove<A>(s: Seq<A>, i: int, hit: spec_fn(A) -> bool)
    requires
        0 <= i < s.len(),
    ensures
        tally(s, hit) == tally(s.remove(i), hit) + if hit(s[i]) {
            1nat
        } else {
            0nat
        },
    decreases s.len(),
{
    if i == s.len() - 1 {
        assert(s.remove(i) =~= s.drop_last());
    } else {
        assert(s.remove(i).drop_last() =~= s.drop_last().remove(i));
        assert(s.remove(i).last() == s.last());
        lemma_tally_remove(s.drop_last(), i, hit);
    }
}

/// Where the test accepts some element, the count is at least one.
pub proof fn lemma_tally_some<A>(s: Seq<A>, i: int, hit: spec_fn(A) -> bool)
    requires
        0 <= i < s.len(),
        hit(s[i]),
    ensures
        tally(s, hit) >= 1,
{
    lemma_tally_remove(s, i, hit);
}

} // verus!
