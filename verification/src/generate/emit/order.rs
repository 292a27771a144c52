//! Dependency order: the order in which the types of one unit are declared
//! in full, each after the types it needs, as far as the needs allow it.
use vstd::prelude::*;

verus! {

/// Item `j` is among the first `k` of `order`.
pub open spec fn placed_before(order: Seq<usize>, k: int, j: int) -> bool {
    exists|i: int| 0 <= i < k && #[trigger] order[i] == j
}

/// Every item that `x` needs is among the first `k` of `order`. Only items
/// that take part count, and no item needs itself.
pub open spec fn is_ready(
    n: int,
    active: spec_fn(int) -> bool,
    needs: spec_fn(int, int) -> bool,
    order: Seq<usize>,
    k: int,
    x: int,
) -> bool {
    forall|j: int|
        0 <= j < n && j != x && active(j) && #[trigger] needs(x, j) ==> placed_before(order, k, j)
}

/// Item `y` can take place `k`: it takes part, has no place yet, and all it
/// needs has.
pub open spec fn is_candidate(
    n: int,
    active: spec_fn(int) -> bool,
    needs: spec_fn(int, int) -> bool,
    order: Seq<usize>,
    k: int,
    y: int,
) -> bool {
    &&& 0 <= y < n
    &&& active(y)
    &&& !placed_before(order, k, y)
    &&& is_ready(n, active, needs, order, k, y)
}

/// Place `k` holds the first item that can take it or, where needs run in a
/// circle and no item can, the first item that has no place yet.
pub open spec fn chosen_at(
    n: int,
    active: spec_fn(int) -> bool,
    needs: spec_fn(int, int) -> bool,
    order: Seq<usize>,
    k: int,
) -> bool {
    let x = order[k] as int;
    if exists|y: int| is_candidate(n, active, needs, order, k, y) {
        &&& is_candidate(n, active, needs, order, k, x)
        &&& forall|y: int| 0 <= y < x ==> !is_candidate(n, active, needs, order, k, y)
    } else {
        &&& 0 <= x < n
        &&& active(x)
        &&& !placed_before(order, k, x)
        &&& forall|y: int| 0 <= y < x && #[trigger] active(y) ==> placed_before(order, k, y)
    }
}

/// `order` holds every item that takes part, once, each place filled by the
/// rule above.
pub open spec fn is_dependency_order(
    n: int,
    active: spec_fn(int) -> bool,
    needs: spec_fn(int, int) -> bool,
    order: Seq<usize>,
) -> bool {
    &&& forall|k: int| 0 <= k < order.len() ==> (#[trigger] order[k]) < n && active(order[k] as int)
    &&& forall|i: int, j: int| 0 <= i < j < order.len() ==> #[trigger] order[i] != #[trigger] order[j]
    &&& forall|y: int|
        0 <= y < n && #[trigger] active(y) ==> placed_before(order, order.len() as int, y)
    &&& forall|k: int| 0 <= k < order.len() ==> #[trigger] chosen_at(n, active, needs, order, k)
}

/// Item `x` needs item `j` by the lists: `deps[x]` names `j`.
pub open spec fn listed(deps: Seq<Vec<usize>>, x: int, j: int) -> bool {
    0 <= x < deps.len() && exists|i: int| 0 <= i < deps[x].len() && #[trigger] deps[x][i] == j
}

/// How many of the flags are not set.
pub open spec fn count_unset(flags: Seq<bool>) -> nat
    decreases flags.len(),
{
    if flags.len() == 0 {
        0
    } else {
        count_unset(flags.drop_last()) + if flags.last() {
            0nat
        } else {
            1nat
        }
    }
}

proof fn lemma_count_unset_bound(flags: Seq<bool>)
    ensures
        count_unset(flags) <= flags.len(),
    decreases flags.len(),
{
    if flags.len() > 0 {
        lemma_count_unset_bound(flags.drop_last());
    }
}

proof fn lemma_count_unset_some(flags: Seq<bool>)
    ensures
        count_unset(flags) > 0 <==> exists|i: int| 0 <= i < flags.len() && !flags[i],
    decreases flags.len(),
{
    if flags.len() > 0 {
        lemma_count_unset_some(flags.drop_last());
        if exists|i: int| 0 <= i < flags.len() && !flags[i] {
            let i = choose|i: int| 0 <= i < flags.len() && !flags[i];
            if i < flags.len() - 1 {
                assert(!flags.drop_last()[i]);
            }
        }
        if count_unset(flags) > 0 {
            if flags.last() {
                let i = choose|i: int| 0 <= i < flags.drop_last().len() && !flags.drop_last()[i];
                assert(!flags[i]);
            } else {
                assert(!flags[flags.len() - 1]);
            }
        }
    }
}

proof fn lemma_count_unset_set(flags: Seq<bool>, x: int)
    requires
        0 <= x < flags.len(),
        !flags[x],
    ensures
        count_unset(flags.update(x, true)) == count_unset(flags) - 1,
    decreases flags.len(),
{
    let after = flags.update(x, true);
    if x == flags.len() - 1 {
        assert(after.drop_last() =~= flags.drop_last());
    } else {
        assert(after.drop_last() =~= flags.drop_last().update(x, true));
        lemma_count_unset_set(flags.drop_last(), x);
    }
}

/// The flags are set for the items that have a place or take no part.
spec fn flags_match(done: Seq<bool>, active: Seq<bool>, order: Seq<usize>) -> bool {
    forall|y: int|
        0 <= y < done.len() ==> (#[trigger] done[y] <==> !active[y] || placed_before(
            order,
            order.len() as int,
            y,
        ))
}

fn ready(
    deps: &Vec<Vec<usize>>,
    active: &Vec<bool>,
    done: &Vec<bool>,
    Ghost(order): Ghost<Seq<usize>>,
    y: usize,
) -> (r: bool)
    requires
        done.len() == deps.len(),
        active.len() == deps.len(),
        y < deps.len(),
        flags_match(done@, active@, order),
    ensures
        r == is_ready(
            deps.len() as int,
            |i: int| active@[i],
            |x: int, j: int| listed(deps@, x, j),
            order,
            order.len() as int,
            y as int,
        ),
{
    let n = deps.len();
    let list = &deps[y];
    let mut i: usize = 0;
    while i < list.len()
        invariant
            n == deps.len(),
            done.len() == n,
            active.len() == n,
            y < n,
            *list == deps[y as int],
            flags_match(done@, active@, order),
            i <= list.len(),
            forall|a: int| 0 <= a < i && (#[trigger] list[a]) != y && list[a] < n ==> done[list[a] as int],
        decreases list.len() - i,
    {
        let j = list[i];
        if j != y && j < n && !done[j] {
            proof {
                let act = |i: int| active@[i];
                let nd = |x: int, j: int| listed(deps@, x, j);
                assert(deps@[y as int][i as int] == j);
                assert(nd(y as int, j as int));
                assert(act(j as int));
                assert(!placed_before(order, order.len() as int, j as int));
                assert(!is_ready(n as int, act, nd, order, order.len() as int, y as int));
            }
            return false;
        }
        i += 1;
    }
    proof {
        let act = |i: int| active@[i];
        let nd = |x: int, j: int| listed(deps@, x, j);
        assert forall|j: int| 0 <= j < n && j != y && act(j) && #[trigger] nd(y as int, j) implies placed_before(
            order,
            order.len() as int,
            j,
        ) by {
            let a = choose|a: int| 0 <= a < deps@[y as int].len() && #[trigger] deps@[y as int][a] == j;
            assert(list[a] == j);
            assert(done[j]);
        }
    }
    true
}

/// The order in which the items that take part are declared: each place
/// takes the first item that needs nothing but what has a place already;
/// where needs run in a circle, the first item without a place goes next.
/// `deps[x]` lists the items that `x` needs; entries that are no items, or
/// take no part, count for nothing.
pub fn dependency_order(deps: &Vec<Vec<usize>>, active: &Vec<bool>) -> (order: Vec<usize>)
    requires
        active.len() == deps.len(),
    ensures
        is_dependency_order(
            deps.len() as int,
            |i: int| active@[i],
            |x: int, j: int| listed(deps@, x, j),
            order@,
        ),
{
    let n = deps.len();
    let ghost act = |i: int| active@[i];
    let ghost nd = |x: int, j: int| listed(deps@, x, j);
    let mut done: Vec<bool> = Vec::new();
    let mut remaining: usize = 0;
    let mut i: usize = 0;
    while i < n
        invariant
            n == active.len(),
            i <= n,
            done.len() == i,
            remaining == count_unset(done@),
            remaining <= i,
            forall|j: int| 0 <= j < i ==> #[trigger] done[j] == !active[j],
        decreases n - i,
    {
        let ghost before = done@;
        done.push(!active[i]);
        assert(done@.drop_last() =~= before);
        if active[i] {
            remaining += 1;
        }
        i += 1;
    }
    let mut order: Vec<usize> = Vec::new();
    while remaining > 0
        invariant
            n == deps.len(),
            active.len() == n,
            done.len() == n,
            act == (|i: int| active@[i]),
            nd == (|x: int, j: int| listed(deps@, x, j)),
            remaining == count_unset(done@),
            flags_match(done@, active@, order@),
            forall|k: int| 0 <= k < order.len() ==> (#[trigger] order[k]) < n && active[order[k] as int],
            forall|a: int, b: int| 0 <= a < b < order.len() ==> #[trigger] order[a] != #[trigger] order[b],
            forall|k: int| 0 <= k < order.len() ==> #[trigger] chosen_at(n as int, act, nd, order@, k),
        decreases remaining,
    {
        let ghost before = order@;
        let ghost k = order.len() as int;
        let mut pick: Option<usize> = None;
        let mut first: Option<usize> = None;
        let mut y: usize = 0;
        while y < n
            invariant
                n == deps.len(),
                active.len() == n,
                done.len() == n,
                act == (|i: int| active@[i]),
                nd == (|x: int, j: int| listed(deps@, x, j)),
                order@ == before,
                k == before.len(),
                flags_match(done@, active@, before),
                y <= n,
                match pick {
                    Some(x) => x < n && is_candidate(n as int, act, nd, before, k, x as int)
                        && forall|z: int|
                        0 <= z < x ==> !is_candidate(n as int, act, nd, before, k, z),
                    None => forall|z: int|
                        0 <= z < y ==> !is_candidate(n as int, act, nd, before, k, z),
                },
                match first {
                    Some(x) => x < n && !done[x as int] && forall|z: int| 0 <= z < x ==> #[trigger] done[z],
                    None => forall|z: int| 0 <= z < y ==> #[trigger] done[z],
                },
            decreases n - y,
        {
            if !done[y] {
                if first.is_none() {
                    first = Some(y);
                }
                if pick.is_none() && ready(deps, active, &done, Ghost(before), y) {
                    pick = Some(y);
                }
            }
            y += 1;
        }
        proof {
            lemma_count_unset_some(done@);
        }
        let x = match pick {
            Some(x) => x,
            None => match first {
                Some(x) => x,
                None => {
                    proof {
                        let w = choose|w: int| 0 <= w < done@.len() && !done@[w];
                        assert(done[w]);
                    }
                    0
                },
            },
        };
        proof {
            assert(!done[x as int]);
            assert(active[x as int]);
            assert(!placed_before(before, k, x as int));
            lemma_count_unset_set(done@, x as int);
            if pick is None {
                assert forall|z: int| 0 <= z < x && #[trigger] act(z) implies placed_before(
                    before,
                    k,
                    z,
                ) by {
                    assert(done[z]);
                }
                assert forall|z: int| !is_candidate(n as int, act, nd, before, k, z) by {
                    if 0 <= z < n {
                    }
                }
            }
        }
        done.set(x, true);
        order.push(x);
        remaining -= 1;
        proof {
            let after = order@;
            assert(after.drop_last() =~= before);
            assert forall|z: int| 0 <= z < n implies (#[trigger] done@[z] <==> !active@[z]
                || placed_before(after, after.len() as int, z)) by {
                if z == x {
                    assert(after[k] == z);
                } else {
                    if placed_before(after, after.len() as int, z) {
                        let i = choose|i: int| 0 <= i < after.len() && #[trigger] after[i] == z;
                        assert(before[i] == z);
                    }
                    if placed_before(before, k, z) {
                        let i = choose|i: int| 0 <= i < k && #[trigger] before[i] == z;
                        assert(after[i] == z);
                    }
                }
            }
            assert forall|a: int, b: int| 0 <= a < b < after.len() implies #[trigger] after[a]
                != #[trigger] after[b] by {
                if b == k {
                    if after[a] == x {
                        assert(before[a] == x);
                    }
                } else {
                    assert(before[a] != before[b]);
                }
            }
            assert forall|p: int| 0 <= p < after.len() implies #[trigger] chosen_at(
                n as int,
                act,
                nd,
                after,
                p,
            ) by {
                if p < k {
                    assert(chosen_at(n as int, act, nd, before, p));
                    lemma_prefix_chosen(n as int, act, nd, before, after, p);
                } else {
                    lemma_same_prefix(n as int, act, nd, before, after, k);
                }
            }
        }
    }
    proof {
        lemma_count_unset_some(done@);
        assert forall|y: int| 0 <= y < n && #[trigger] act(y) implies placed_before(
            order@,
            order@.len() as int,
            y,
        ) by {
            assert(done@[y]);
        }
    }
    order
}

/// What holds of the first `k` places does not depend on what follows them.
proof fn lemma_same_prefix(
    n: int,
    active: spec_fn(int) -> bool,
    needs: spec_fn(int, int) -> bool,
    a: Seq<usize>,
    b: Seq<usize>,
    k: int,
)
    requires
        0 <= k <= a.len(),
        k <= b.len(),
        forall|i: int| 0 <= i < k ==> a[i] == b[i],
    ensures
        forall|y: int| placed_before(a, k, y) == placed_before(b, k, y),
        forall|y: int| is_ready(n, active, needs, a, k, y) == is_ready(n, active, needs, b, k, y),
        forall|y: int|
            is_candidate(n, active, needs, a, k, y) == is_candidate(n, active, needs, b, k, y),
{
    assert forall|y: int| placed_before(a, k, y) == placed_before(b, k, y) by {
        if placed_before(a, k, y) {
            let i = choose|i: int| 0 <= i < k && #[trigger] a[i] == y;
            assert(b[i] == y);
        }
        if placed_before(b, k, y) {
            let i = choose|i: int| 0 <= i < k && #[trigger] b[i] == y;
            assert(a[i] == y);
        }
    }
    assert forall|y: int| is_ready(n, active, needs, a, k, y) == is_ready(
        n,
        active,
        needs,
        b,
        k,
        y,
    ) by {
        if is_ready(n, active, needs, a, k, y) {
            assert forall|j: int|
                0 <= j < n && j != y && active(j) && #[trigger] needs(y, j) implies placed_before(
                b,
                k,
                j,
            ) by {
                assert(placed_before(a, k, j));
            }
        }
        if is_ready(n, active, needs, b, k, y) {
            assert forall|j: int|
                0 <= j < n && j != y && active(j) && #[trigger] needs(y, j) implies placed_before(
                a,
                k,
                j,
            ) by {
                assert(placed_before(b, k, j));
            }
        }
    }
}

proof fn lemma_prefix_chosen(
    n: int,
    active: spec_fn(int) -> bool,
    needs: spec_fn(int, int) -> bool,
    a: Seq<usize>,
    b: Seq<usize>,
    p: int,
)
    requires
        0 <= p < a.len(),
        a.len() <= b.len(),
        forall|i: int| 0 <= i < a.len() ==> a[i] == b[i],
        chosen_at(n, active, needs, a, p),
    ensures
        chosen_at(n, active, needs, b, p),
{
    lemma_same_prefix(n, active, needs, a, b, p);
    let x = a[p] as int;
    if exists|y: int| is_candidate(n, active, needs, a, p, y) {
        let y = choose|y: int| is_candidate(n, active, needs, a, p, y);
        assert(is_candidate(n, active, needs, b, p, y));
    } else {
        assert forall|y: int| 0 <= y < x && #[trigger] active(y) implies placed_before(b, p, y) by {
            assert(placed_before(a, p, y));
        }
    }
}

/// An order by one reading of who takes part and who needs whom is an order
/// by every reading that agrees with it on the items.
pub proof fn lemma_order_by_equal_needs(
    n: int,
    active: spec_fn(int) -> bool,
    needs: spec_fn(int, int) -> bool,
    active2: spec_fn(int) -> bool,
    needs2: spec_fn(int, int) -> bool,
    order: Seq<usize>,
)
    requires
        is_dependency_order(n, active, needs, order),
        forall|y: int|
            #![trigger active(y)]
            #![trigger active2(y)]
            0 <= y < n ==> active(y) == active2(y),
        forall|x: int, j: int|
            #![trigger needs(x, j)]
            #![trigger needs2(x, j)]
            0 <= x < n && 0 <= j < n && active(x) && active(j) ==> needs(x, j) == needs2(x, j),
    ensures
        is_dependency_order(n, active2, needs2, order),
{
    assert forall|k: int, y: int| 0 <= k <= order.len() implies is_candidate(
        n,
        active,
        needs,
        order,
        k,
        y,
    ) == is_candidate(n, active2, needs2, order, k, y) by {
        if 0 <= y < n && active(y) {
            if is_ready(n, active, needs, order, k, y) {
                assert forall|j: int|
                    0 <= j < n && j != y && active2(j) && #[trigger] needs2(y, j) implies placed_before(
                    order,
                    k,
                    j,
                ) by {
                    assert(needs(y, j));
                }
            }
            if is_ready(n, active2, needs2, order, k, y) {
                assert forall|j: int|
                    0 <= j < n && j != y && active(j) && #[trigger] needs(y, j) implies placed_before(
                    order,
                    k,
                    j,
                ) by {
                    assert(needs2(y, j));
                }
            }
        }
    }
    assert forall|k: int| 0 <= k < order.len() implies #[trigger] chosen_at(
        n,
        active2,
        needs2,
        order,
        k,
    ) by {
        assert(chosen_at(n, active, needs, order, k));
        let x = order[k] as int;
        if exists|y: int| is_candidate(n, active, needs, order, k, y) {
            let y = choose|y: int| is_candidate(n, active, needs, order, k, y);
            assert(is_candidate(n, active2, needs2, order, k, y));
        } else {
            if exists|y: int| is_candidate(n, active2, needs2, order, k, y) {
                let y = choose|y: int| is_candidate(n, active2, needs2, order, k, y);
                assert(is_candidate(n, active, needs, order, k, y));
            }
            assert forall|y: int| 0 <= y < x && #[trigger] active2(y) implies placed_before(
                order,
                k,
                y,
            ) by {
                assert(active(y));
            }
        }
    }
    assert forall|y: int| 0 <= y < n && #[trigger] active2(y) implies placed_before(
        order,
        order.len() as int,
        y,
    ) by {
        assert(active(y));
    }
}

/// The item among the first `m` that takes part, has no place yet and is of
/// the lowest rank among those.
proof fn lowest_unplaced(
    active: spec_fn(int) -> bool,
    order: Seq<usize>,
    k: int,
    rank: spec_fn(int) -> int,
    m: int,
) -> (w: int)
    requires
        exists|y: int| 0 <= y < m && active(y) && !placed_before(order, k, y),
    ensures
        0 <= w < m,
        active(w),
        !placed_before(order, k, w),
        forall|y: int| 0 <= y < m && active(y) && !placed_before(order, k, y) ==> rank(w) <= rank(y),
    decreases m,
{
    let last = m - 1;
    if exists|y: int| 0 <= y < last && active(y) && !placed_before(order, k, y) {
        let w = lowest_unplaced(active, order, k, rank, last);
        if active(last) && !placed_before(order, k, last) && rank(last) < rank(w) {
            last
        } else {
            w
        }
    } else {
        last
    }
}

/// Where the needs are free of circles, the order respects them all: what an
/// item needs stands before it. Needs are free of circles where some ranking
/// puts every item above all it needs.
pub proof fn lemma_order_respects_needs(
    n: int,
    active: spec_fn(int) -> bool,
    needs: spec_fn(int, int) -> bool,
    order: Seq<usize>,
    rank: spec_fn(int) -> int,
    k: int,
    j: int,
)
    requires
        is_dependency_order(n, active, needs, order),
        forall|x: int, y: int|
            0 <= x < n && 0 <= y < n && x != y && active(x) && active(y) && #[trigger] needs(x, y)
                ==> rank(y) < rank(x),
        0 <= k < order.len(),
        0 <= j < n,
        j != order[k],
        active(j),
        needs(order[k] as int, j),
    ensures
        placed_before(order, k, j),
{
    let x = order[k] as int;
    assert(chosen_at(n, active, needs, order, k));
    if placed_before(order, k, x) {
        let i = choose|i: int| 0 <= i < k && #[trigger] order[i] == x;
        assert(order[i] != order[k]);
    }
    let w = lowest_unplaced(active, order, k, rank, n);
    assert forall|d: int|
        0 <= d < n && d != w && active(d) && #[trigger] needs(w, d) implies placed_before(
        order,
        k,
        d,
    ) by {
        if !placed_before(order, k, d) {
            assert(rank(w) <= rank(d));
        }
    }
    assert(is_candidate(n, active, needs, order, k, w));
}

} // verus!
