//! Laws of sequences: repetitions, and sequences with the same elements.
use crate::model::first_repeat;
use vstd::prelude::*;

verus! {

/// A repetition inside a prefix of `s` is the first repetition of `s` too.
pub proof fn lemma_first_repeat_prefix<A>(s: Seq<A>, n: int)
    requires
        0 <= n <= s.len(),
        first_repeat(s.take(n)) is Some,
    ensures
        first_repeat(s) == first_repeat(s.take(n)),
    decreases s.len() - n,
{
    if n < s.len() {
        assert(s.take(n + 1).drop_last() =~= s.take(n));
        lemma_first_repeat_prefix(s, n + 1);
    } else {
        assert(s.take(n) =~= s);
    }
}

/// A sequence has no repetition if and only if its elements differ pairwise.
pub proof fn lemma_first_repeat_none<A>(s: Seq<A>)
    ensures
        first_repeat(s) is None <==> s.no_duplicates(),
    decreases s.len(),
{
    if s.len() > 0 {
        let init = s.drop_last();
        lemma_first_repeat_none(init);
        if first_repeat(s) is None {
            assert forall|i: int, j: int| 0 <= i < s.len() && 0 <= j < s.len() && i != j implies s[i]
                != s[j] by {
                if i < init.len() && j < init.len() {
                    assert(init[i] != init[j]);
                } else if i < init.len() {
                    assert(init[i] == s[i]);
                } else {
                    assert(init[j] == s[j]);
                }
            }
        }
        if s.no_duplicates() {
            assert forall|i: int, j: int|
                0 <= i < init.len() && 0 <= j < init.len() && i != j implies init[i] != init[j] by {
                assert(s[i] != s[j]);
            }
            if init.contains(s.last()) {
                let i = choose|i: int| 0 <= i < init.len() && init[i] == s.last();
                assert(s[i] == s[s.len() - 1]);
            }
        }
    }
}

/// The first repetition is at a position whose element occurs before it, and
/// no repetition lies before that position.
pub proof fn lemma_first_repeat_some<A>(s: Seq<A>)
    requires
        first_repeat(s) is Some,
    ensures
        0 <= first_repeat(s).unwrap() < s.len(),
        s.take(first_repeat(s).unwrap()).contains(s[first_repeat(s).unwrap()]),
        s.take(first_repeat(s).unwrap()).no_duplicates(),
    decreases s.len(),
{
    let init = s.drop_last();
    if first_repeat(init) is Some {
        lemma_first_repeat_some(init);
        let i = first_repeat(init).unwrap();
        assert(init.take(i) =~= s.take(i));
    } else {
        lemma_first_repeat_none(init);
        assert(s.take(s.len() - 1) =~= init);
    }
}

/// Two sequences with the same elements, each as often in the one as in the
/// other, have the same members.
pub proof fn lemma_permutation_contains<A>(s: Seq<A>, permuted: Seq<A>)
    requires
        s.to_multiset() == permuted.to_multiset(),
    ensures
        forall|a: A| s.contains(a) <==> permuted.contains(a),
        s.no_duplicates() ==> permuted.no_duplicates(),
{
    broadcast use vstd::seq_lib::to_multiset_contains;

    assert forall|a: A| s.contains(a) <==> permuted.contains(a) by {
        assert(s.contains(a) <==> s.to_multiset().count(a) > 0);
        assert(permuted.contains(a) <==> permuted.to_multiset().count(a) > 0);
    }
    if s.no_duplicates() {
        s.lemma_multiset_has_no_duplicates();
        permuted.lemma_multiset_has_no_duplicates_conv();
    }
}

} // verus!
