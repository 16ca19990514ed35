//! The first position in a sequence at which something holds.

use vstd::prelude::*;

verus! {

/// Position of the first item of `s` of which `pred` holds, or `-1`.
pub open spec fn first_index<T>(s: Seq<T>, pred: spec_fn(T) -> bool) -> int
    decreases s.len(),
{
    if s.len() == 0 {
        -1
    } else if pred(s[0]) {
        0
    } else {
        let rest = first_index(s.drop_first(), pred);
        if rest < 0 {
            -1
        } else {
            rest + 1
        }
    }
}

/// `first_index` is `-1` or a position at which `pred` holds, and `pred`
/// holds at no position before it.
pub proof fn lemma_first_index<T>(s: Seq<T>, pred: spec_fn(T) -> bool)
    ensures
        -1 <= first_index(s, pred) < s.len(),
        first_index(s, pred) >= 0 ==> pred(s[first_index(s, pred)]),
        forall|k: int|
            0 <= k < s.len() && (first_index(s, pred) < 0 || k < first_index(s, pred)) ==> !pred(
                #[trigger] s[k],
            ),
    decreases s.len(),
{
    if s.len() > 0 && !pred(s[0]) {
        let tail = s.drop_first();
        lemma_first_index(tail, pred);
        assert forall|k: int|
            0 <= k < s.len() && (first_index(s, pred) < 0 || k < first_index(s, pred)) implies
            !pred(#[trigger] s[k]) by {
            if k > 0 {
                assert(tail[k - 1] == s[k]);
            }
        }
    }
}

/// A position at which `pred` holds, with none before it, is `first_index`.
pub proof fn lemma_first_index_at<T>(s: Seq<T>, pred: spec_fn(T) -> bool, i: int)
    requires
        0 <= i < s.len(),
        pred(s[i]),
        forall|k: int| 0 <= k < i ==> !pred(#[trigger] s[k]),
    ensures
        first_index(s, pred) == i,
{
    lemma_first_index(s, pred);
}

/// Where `pred` holds nowhere, `first_index` is `-1`.
pub proof fn lemma_first_index_none<T>(s: Seq<T>, pred: spec_fn(T) -> bool)
    requires
        forall|k: int| 0 <= k < s.len() ==> !pred(#[trigger] s[k]),
    ensures
        first_index(s, pred) == -1,
{
    lemma_first_index(s, pred);
}

} // verus!
