//! Stable sorting of keyed items through `itertools`.
use core::cmp::Ordering;
use itertools::Itertools;
use vstd::prelude::*;

verus! {

/// `output` is `input` sorted by the first component, equal keys left in their
/// input order; `from[k]` is the input position of `output[k]`.
pub open spec fn is_stable_sort(
    input: Seq<(usize, usize)>,
    output: Seq<(usize, usize)>,
    from: Seq<int>,
) -> bool {
    &&& output.len() == input.len()
    &&& from.len() == input.len()
    &&& forall|k: int| 0 <= k < from.len() ==> 0 <= #[trigger] from[k] < input.len()
    &&& forall|i: int, j: int| 0 <= i < j < from.len() ==> from[i] != from[j]
    &&& forall|k: int| 0 <= k < output.len() ==> #[trigger] output[k] == input[from[k]]
    &&& forall|i: int, j: int| 0 <= i < j < output.len() ==> output[i].0 <= output[j].0
    &&& forall|i: int, j: int|
        0 <= i < j < output.len() && output[i].0 == output[j].0 ==> from[i] < from[j]
}

/// Orders two items by their first component alone.
pub fn key_order(a: &(usize, usize), b: &(usize, usize)) -> (r: Ordering)
    ensures
        r == Ordering::Less <==> a.0 < b.0,
        r == Ordering::Equal <==> a.0 == b.0,
        r == Ordering::Greater <==> a.0 > b.0,
{
    if a.0 < b.0 {
        Ordering::Less
    } else if a.0 == b.0 {
        Ordering::Equal
    } else {
        Ordering::Greater
    }
}

/// `Itertools::sorted_by` under `key_order`. Trusted: it collects the items,
/// sorts them with `slice::sort_by`, which is stable, and hands them back, so
/// the result is a rearrangement of the input in ascending key order in which
/// items of equal key keep their relative order.
#[verifier::external_body]
pub(crate) fn sorted_by_key(items: Vec<(usize, usize)>) -> (r: Vec<(usize, usize)>)
    ensures
        exists|from: Seq<int>| #[trigger] is_stable_sort(items@, r@, from),
{
    items.into_iter().sorted_by(|a, b| key_order(a, b)).collect()
}

} // verus!
