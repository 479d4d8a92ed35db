//! Lists of columns put in order.

use vstd::prelude::*;
use itertools::Itertools;

verus! {

/// Drops repeated values from a list, through `itertools::Itertools::unique`:
/// the result holds every value of the list, and none twice.
#[verifier::external_body]
pub(crate) fn unique(list: Vec<u32>) -> (r: Vec<u32>)
    ensures
        r@.no_duplicates(),
        forall|v: u32| r@.contains(v) <==> list@.contains(v),
{
    list.into_iter().unique().collect()
}

/// Sorts a list, through `itertools::Itertools::sorted`: the result holds
/// the values of the list, each as often as the list does, in ascending order.
#[verifier::external_body]
pub(crate) fn sorted(list: Vec<u32>) -> (r: Vec<u32>)
    ensures
        r@.to_multiset() == list@.to_multiset(),
        forall|i: int, j: int| 0 <= i < j < r@.len() ==> r@[i] <= r@[j],
{
    list.into_iter().sorted().collect()
}

/// Whether a list is in strictly ascending order.
pub open spec fn ascending(s: Seq<u32>) -> bool {
    forall|i: int, j: int| 0 <= i < j < s.len() ==> s[i] < s[j]
}

/// The values of a list in strictly ascending order, each once.
pub fn sorted_unique(list: Vec<u32>) -> (r: Vec<u32>)
    ensures
        ascending(r@),
        forall|v: u32| r@.contains(v) <==> list@.contains(v),
{
    let once: Vec<u32> = unique(list);
    let r: Vec<u32> = sorted(once);
    proof {
        once@.to_multiset_ensures();
        r@.to_multiset_ensures();
        once@.lemma_multiset_has_no_duplicates();
        r@.lemma_multiset_has_no_duplicates_conv();
        assert forall|i: int, j: int| 0 <= i < j < r@.len() implies r@[i] < r@[j] by {
            assert(r@[i] != r@[j]);
        }
        assert forall|v: u32| r@.contains(v) <==> list@.contains(v) by {
            assert(r@.contains(v) <==> r@.to_multiset().count(v) > 0);
            assert(once@.contains(v) <==> once@.to_multiset().count(v) > 0);
        }
    }
    r
}

} // verus!
