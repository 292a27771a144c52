//! The order in which emitted files are handed to the external formatter.
use crate::sort::{is_stable_sort, sorted_by_key};
use vstd::prelude::*;

verus! {

/// File `a` is formatted before file `b`: the larger file first, and of two
/// files of one size the later one first.
pub open spec fn formats_before(sizes: Seq<usize>, a: int, b: int) -> bool {
    sizes[a] > sizes[b] || (sizes[a] == sizes[b] && a > b)
}

/// `order` lists every file position exactly once, each before all those it
/// is formatted before.
pub open spec fn is_format_order(sizes: Seq<usize>, order: Seq<usize>) -> bool {
    &&& order.len() == sizes.len()
    &&& forall|k: int| 0 <= k < order.len() ==> 0 <= #[trigger] order[k] < sizes.len()
    &&& forall|i: int, j: int|
        0 <= i < j < order.len() ==> formats_before(
            sizes,
            #[trigger] order[i] as int,
            #[trigger] order[j] as int,
        )
}

/// The positions of the files in formatting order, largest file first so that
/// small files fill the time while large ones are still being worked on.
/// `sizes[i]` is the size on disk of file `i`; entry `k` of the result is the
/// file that is reported as number `k + 1`.
pub fn format_order(sizes: &Vec<usize>) -> (order: Vec<usize>)
    ensures
        is_format_order(sizes@, order@),
{
    let n = sizes.len();
    let mut keyed: Vec<(usize, usize)> = Vec::new();
    let mut i: usize = 0;
    while i < n
        invariant
            n == sizes.len(),
            i <= n,
            keyed.len() == i,
            forall|k: int| 0 <= k < i ==> #[trigger] keyed[k] == (sizes[k], k as usize),
        decreases n - i,
    {
        keyed.push((sizes[i], i));
        i += 1;
    }
    let ghost input = keyed@;
    let sorted = sorted_by_key(keyed);
    let ghost from = choose|from: Seq<int>| #[trigger] is_stable_sort(input, sorted@, from);
    proof {
        assert forall|k: int| 0 <= k < n implies (#[trigger] sorted[k]).1 == from[k] && sorted[k].0
            == sizes[from[k]] by {
            assert(sorted[k] == input[from[k]]);
        }
    }
    let mut order: Vec<usize> = Vec::new();
    let mut k: usize = n;
    while k > 0
        invariant
            n == sizes.len(),
            sorted.len() == n,
            k <= n,
            order.len() == n - k,
            forall|m: int| 0 <= m < order.len() ==> #[trigger] order[m] == sorted[n - 1 - m].1,
        decreases k,
    {
        k -= 1;
        order.push(sorted[k].1);
    }
    proof {
        assert forall|a: int, b: int| 0 <= a < b < order.len() implies formats_before(
            sizes@,
            #[trigger] order[a] as int,
            #[trigger] order[b] as int,
        ) by {
            let x = n - 1 - a;
            let y = n - 1 - b;
            assert(sorted[y].0 <= sorted[x].0);
            assert(sorted[x].1 == from[x]);
            assert(sorted[y].1 == from[y]);
        }
        assert forall|m: int| 0 <= m < order.len() implies 0 <= #[trigger] order[m] < sizes.len() by {
            assert(sorted[n - 1 - m].1 == from[n - 1 - m]);
        }
    }
    order
}

} // verus!
