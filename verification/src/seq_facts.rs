//! Facts about filtered sequences that the rules of the game rest on.

use vstd::prelude::*;

verus! {

/// Every entry of a filtered sequence stands in the sequence that was filtered, and
/// meets the test.
pub proof fn lemma_filter_source<A>(s: Seq<A>, keep: spec_fn(A) -> bool, a: int) -> (i: int)
    requires
        0 <= a < s.filter(keep).len(),
    ensures
        0 <= i < s.len(),
        s[i] == s.filter(keep)[a],
        keep(s[i]),
    decreases s.len(),
{
    reveal(Seq::filter);
    let rest = s.drop_last();
    if keep(s.last()) && a == rest.filter(keep).len() {
        s.len() - 1
    } else {
        lemma_filter_source(rest, keep, a)
    }
}

/// Filtering keeps the order: two entries of a filtered sequence stand in the same order
/// in the sequence that was filtered.
pub proof fn lemma_filter_order<A>(s: Seq<A>, keep: spec_fn(A) -> bool, a: int, b: int) -> (ij: (
    int,
    int,
))
    requires
        0 <= a < b < s.filter(keep).len(),
    ensures
        0 <= ij.0 < ij.1 < s.len(),
        s[ij.0] == s.filter(keep)[a],
        s[ij.1] == s.filter(keep)[b],
    decreases s.len(),
{
    reveal(Seq::filter);
    let rest = s.drop_last();
    if keep(s.last()) && b == rest.filter(keep).len() {
        let i = lemma_filter_source(rest, keep, a);
        (i, s.len() - 1)
    } else {
        lemma_filter_order(rest, keep, a, b)
    }
}

/// Every entry that meets the test stands in the filtered sequence.
pub proof fn lemma_filter_keeps<A>(s: Seq<A>, keep: spec_fn(A) -> bool, i: int) -> (a: int)
    requires
        0 <= i < s.len(),
        keep(s[i]),
    ensures
        0 <= a < s.filter(keep).len(),
        s.filter(keep)[a] == s[i],
    decreases s.len(),
{
    reveal(Seq::filter);
    let rest = s.drop_last();
    if i == s.len() - 1 {
        rest.filter(keep).len() as int
    } else {
        lemma_filter_keeps(rest, keep, i)
    }
}

/// Filtering twice by one test is filtering once.
pub proof fn lemma_filter_idempotent<A>(s: Seq<A>, keep: spec_fn(A) -> bool)
    ensures
        s.filter(keep).filter(keep) == s.filter(keep),
    decreases s.len(),
{
    reveal(Seq::filter);
    if s.len() > 0 {
        lemma_filter_idempotent(s.drop_last(), keep);
        if keep(s.last()) {
            s.drop_last().filter(keep).lemma_filter_push(s.last(), keep);
        }
    }
}

/// A sequence falls into the entries that meet a test and those that fail it.
pub proof fn lemma_filter_split<A>(s: Seq<A>, keep: spec_fn(A) -> bool, drop: spec_fn(A) -> bool)
    requires
        forall|x: A| #[trigger] drop(x) == !keep(x),
    ensures
        s.filter(keep).len() + s.filter(drop).len() == s.len(),
    decreases s.len(),
{
    reveal(Seq::filter);
    if s.len() > 0 {
        lemma_filter_split(s.drop_last(), keep, drop);
    }
}

} // verus!
