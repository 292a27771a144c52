//! The emission plan of one compilation unit: what it includes, what it
//! declares ahead, and in which order it declares its own types in full.
use crate::generate::context_collection::ContextCollection;
use crate::generate::cpp_type::{has_tag, CppType};
use crate::generate::emit::needs::{collect_needs, need_views, needs_list, Need};
use crate::generate::emit::order::{
    dependency_order, is_dependency_order, lemma_order_by_equal_needs, listed,
};
use crate::generate::type_tag::{TagView, TypeTag};
use vstd::prelude::*;

verus! {

/// What one compilation unit declares, by the handles of the nodes, in the
/// order of emission: first the includes, then the forward declarations, then
/// the definitions.
#[derive(Clone, Debug, PartialEq, Eq)]
pub struct EmissionPlan {
    /// Types of other units that are needed in full.
    pub includes: Vec<usize>,
    /// Types that are mentioned and declared by name before any definition.
    pub forward_declarations: Vec<usize>,
    /// The types that the unit owns, each declared in full once.
    pub definitions: Vec<usize>,
}

/// The unit rooted at `root` owns node `j`.
pub open spec fn is_owned(nodes: Seq<CppType>, root: TagView, j: int) -> bool {
    0 <= j < nodes.len() && nodes[j].context_root@ == root
}

/// The list mentions the type `t` with the given strength.
pub open spec fn mentions(list: Seq<(TagView, bool)>, t: TagView, strong: bool) -> bool {
    exists|k: int| 0 <= k < list.len() && #[trigger] list[k] == (t, strong)
}

/// The declaration of node `x` mentions node `j` with the given strength.
pub open spec fn node_needs(nodes: Seq<CppType>, x: int, j: int, strong: bool) -> bool {
    mentions(needs_list(nodes[x], nodes), nodes[j].self_tag@, strong)
}

/// Some node of the unit mentions node `j` with the given strength.
pub open spec fn unit_needs(nodes: Seq<CppType>, root: TagView, j: int, strong: bool) -> bool {
    exists|m: int| is_owned(nodes, root, m) && #[trigger] node_needs(nodes, m, j, strong)
}

/// The unit includes node `j`: it needs the node in full and does not own it.
pub open spec fn is_included(nodes: Seq<CppType>, root: TagView, j: int) -> bool {
    &&& 0 <= j < nodes.len()
    &&& !is_owned(nodes, root, j)
    &&& unit_needs(nodes, root, j, true)
}

/// The unit declares node `j` ahead: it mentions the node and does not
/// include it.
pub open spec fn is_forwarded(nodes: Seq<CppType>, root: TagView, j: int) -> bool {
    &&& 0 <= j < nodes.len()
    &&& !is_included(nodes, root, j)
    &&& (unit_needs(nodes, root, j, true) || unit_needs(nodes, root, j, false))
}

/// The handles below `upto` that `p` holds of, ascending.
pub open spec fn selected(p: spec_fn(int) -> bool, upto: nat) -> Seq<usize>
    decreases upto,
{
    if upto == 0 {
        Seq::empty()
    } else {
        let rest = selected(p, (upto - 1) as nat);
        if p(upto - 1) {
            rest.push((upto - 1) as usize)
        } else {
            rest
        }
    }
}

/// `plan` is the emission plan of the unit rooted at `root`: the includes
/// and the forward declarations in ascending order of handle, the definitions
/// in dependency order, where a node needs before it the nodes of the unit
/// that it needs in full.
pub open spec fn is_plan(plan: EmissionPlan, nodes: Seq<CppType>, root: TagView) -> bool {
    &&& plan.includes@ == selected(|j: int| is_included(nodes, root, j), nodes.len())
    &&& plan.forward_declarations@ == selected(|j: int| is_forwarded(nodes, root, j), nodes.len())
    &&& is_dependency_order(
        nodes.len() as int,
        |j: int| is_owned(nodes, root, j),
        |x: int, j: int| node_needs(nodes, x, j, true),
        plan.definitions@,
    )
}

/// `selected` holds exactly the handles that `p` holds of.
pub proof fn lemma_selected(p: spec_fn(int) -> bool, upto: nat)
    requires
        upto <= usize::MAX,
    ensures
        forall|k: int|
            0 <= k < selected(p, upto).len() ==> (#[trigger] selected(p, upto)[k]) < upto && p(
                selected(p, upto)[k] as int,
            ),
        forall|a: int, b: int|
            0 <= a < b < selected(p, upto).len() ==> selected(p, upto)[a] < selected(p, upto)[b],
        forall|j: int|
            0 <= j < upto && #[trigger] p(j) ==> exists|k: int|
                0 <= k < selected(p, upto).len() && #[trigger] selected(p, upto)[k] == j,
    decreases upto,
{
    if upto > 0 {
        let rest = selected(p, (upto - 1) as nat);
        let all = selected(p, upto);
        lemma_selected(p, (upto - 1) as nat);
        assert forall|j: int| 0 <= j < upto && #[trigger] p(j) implies exists|k: int|
            0 <= k < all.len() && #[trigger] all[k] == j by {
            if j == upto - 1 {
                assert(all[all.len() - 1] == j);
            } else {
                let k = choose|k: int| 0 <= k < rest.len() && #[trigger] rest[k] == j;
                assert(all[k] == j);
            }
        }
    }
}

fn select(flags: &Vec<bool>, Ghost(p): Ghost<spec_fn(int) -> bool>) -> (r: Vec<usize>)
    requires
        forall|j: int| 0 <= j < flags.len() ==> #[trigger] flags[j] == p(j),
    ensures
        r@ == selected(p, flags.len() as nat),
{
    let mut out: Vec<usize> = Vec::new();
    let mut j: usize = 0;
    while j < flags.len()
        invariant
            j <= flags.len(),
            forall|i: int| 0 <= i < flags.len() ==> #[trigger] flags[i] == p(i),
            out@ == selected(p, j as nat),
        decreases flags.len() - j,
    {
        if flags[j] {
            out.push(j);
        }
        j += 1;
    }
    out
}

fn new_flags(n: usize) -> (r: Vec<bool>)
    ensures
        r.len() == n,
        forall|j: int| 0 <= j < n ==> !(#[trigger] r[j]),
{
    let mut out: Vec<bool> = Vec::new();
    let mut j: usize = 0;
    while j < n
        invariant
            j <= n,
            out.len() == j,
            forall|i: int| 0 <= i < j ==> !(#[trigger] out[i]),
        decreases n - j,
    {
        out.push(false);
        j += 1;
    }
    out
}

/// Marks the nodes that `list` mentions, and lists those it needs in full.
fn mark_needs(
    cc: &ContextCollection,
    list: &Vec<Need>,
    strong: &mut Vec<bool>,
    weak: &mut Vec<bool>,
) -> (d: Vec<usize>)
    requires
        cc.wf(),
        old(strong).len() == cc.nodes().len(),
        old(weak).len() == cc.nodes().len(),
    ensures
        final(strong).len() == cc.nodes().len(),
        final(weak).len() == cc.nodes().len(),
        forall|j: int|
            0 <= j < cc.nodes().len() ==> (#[trigger] final(strong)[j]) == (old(strong)[j] || mentions(
                need_views(list@),
                cc.nodes()[j].self_tag@,
                true,
            )),
        forall|j: int|
            0 <= j < cc.nodes().len() ==> (#[trigger] final(weak)[j]) == (old(weak)[j] || mentions(
                need_views(list@),
                cc.nodes()[j].self_tag@,
                false,
            )),
        forall|j: int|
            0 <= j < cc.nodes().len() ==> ((exists|i: int| 0 <= i < d.len() && #[trigger] d[i] == j)
                <==> mentions(need_views(list@), cc.nodes()[j].self_tag@, true)),
{
    let ghost nodes = cc.nodes();
    let ghost views = need_views(list@);
    let ghost strong0 = strong@;
    let ghost weak0 = weak@;
    let mut d: Vec<usize> = Vec::new();
    let mut k: usize = 0;
    while k < list.len()
        invariant
            cc.wf(),
            nodes == cc.nodes(),
            views == need_views(list@),
            strong.len() == nodes.len(),
            weak.len() == nodes.len(),
            strong0.len() == nodes.len(),
            weak0.len() == nodes.len(),
            k <= list.len(),
            forall|j: int|
                0 <= j < nodes.len() ==> (#[trigger] strong[j]) == (strong0[j] || mentions(
                    views.subrange(0, k as int),
                    nodes[j].self_tag@,
                    true,
                )),
            forall|j: int|
                0 <= j < nodes.len() ==> (#[trigger] weak[j]) == (weak0[j] || mentions(
                    views.subrange(0, k as int),
                    nodes[j].self_tag@,
                    false,
                )),
            forall|j: int|
                0 <= j < nodes.len() ==> ((exists|i: int| 0 <= i < d.len() && #[trigger] d[i] == j)
                    <==> mentions(views.subrange(0, k as int), nodes[j].self_tag@, true)),
        decreases list.len() - k,
    {
        let ghost before = views.subrange(0, k as int);
        let ghost after = views.subrange(0, k + 1);
        let ghost d0 = d@;
        let need = &list[k];
        let found = cc.find(&need.tag);
        let ghost entry = (need.tag@, need.strong);
        proof {
            assert(views[k as int] == entry);
            assert(after =~= before.push(entry));
            assert forall|t: TagView, s: bool| mentions(after, t, s) == (mentions(before, t, s) || (t, s)
                == entry) by {
                if mentions(before, t, s) {
                    let i = choose|i: int| 0 <= i < before.len() && #[trigger] before[i] == (t, s);
                    assert(after[i] == (t, s));
                }
                if (t, s) == entry {
                    assert(after[k as int] == (t, s));
                }
                if mentions(after, t, s) {
                    let i = choose|i: int| 0 <= i < after.len() && #[trigger] after[i] == (t, s);
                    if i < k {
                        assert(before[i] == (t, s));
                    }
                }
            }
        }
        match found {
            Some(h) => {
                if need.strong {
                    strong.set(h, true);
                    d.push(h);
                } else {
                    weak.set(h, true);
                }
                proof {
                    assert forall|j: int| 0 <= j < nodes.len() implies (nodes[j].self_tag@
                        == need.tag@) == (j == h) by {
                        if nodes[j].self_tag@ == need.tag@ {
                            cc.lemma_one_node_per_tag(j, h as int);
                        }
                    }
                    assert forall|j: int| 0 <= j < nodes.len() implies ((exists|i: int|
                        0 <= i < d.len() && #[trigger] d[i] == j) <==> mentions(
                        after,
                        nodes[j].self_tag@,
                        true,
                    )) by {
                        if exists|i: int| 0 <= i < d0.len() && #[trigger] d0[i] == j {
                            let i = choose|i: int| 0 <= i < d0.len() && #[trigger] d0[i] == j;
                            assert(d[i] == j);
                        }
                        if need.strong && j == h {
                            assert(d[d.len() - 1] == j);
                        }
                        if exists|i: int| 0 <= i < d.len() && #[trigger] d[i] == j {
                            let i = choose|i: int| 0 <= i < d.len() && #[trigger] d[i] == j;
                            if i < d0.len() {
                                assert(d0[i] == j);
                            }
                        }
                    }
                }
            },
            None => {
                proof {
                    assert forall|j: int| 0 <= j < nodes.len() implies nodes[j].self_tag@
                        != need.tag@ by {
                        if nodes[j].self_tag@ == need.tag@ {
                            assert(has_tag(nodes, need.tag@));
                        }
                    }
                }
            },
        }
        k += 1;
    }
    proof {
        assert(views.subrange(0, list.len() as int) =~= views);
    }
    d
}

/// The emission plan of the unit rooted at `root`. Every type that a
/// definition mentions is included or declared ahead, so that no definition
/// uses a name before its declaration; the definitions follow in dependency
/// order, each type once.
pub fn emission_plan(cc: &ContextCollection, root: &TypeTag) -> (plan: EmissionPlan)
    requires
        cc.wf(),
    ensures
        is_plan(plan, cc.nodes(), root@),
{
    let n = cc.len();
    let ghost nodes = cc.nodes();
    let ghost r = root@;
    let mut owned: Vec<bool> = Vec::new();
    let mut j: usize = 0;
    while j < n
        invariant
            n == cc.nodes().len(),
            nodes == cc.nodes(),
            r == root@,
            j <= n,
            owned.len() == j,
            forall|i: int| 0 <= i < j ==> #[trigger] owned[i] == is_owned(nodes, r, i),
        decreases n - j,
    {
        owned.push(cc.get(j).context_root.same_as(root));
        j += 1;
    }
    let mut strong = new_flags(n);
    let mut weak = new_flags(n);
    let mut deps: Vec<Vec<usize>> = Vec::new();
    let mut m: usize = 0;
    while m < n
        invariant
            cc.wf(),
            n == cc.nodes().len(),
            nodes == cc.nodes(),
            r == root@,
            m <= n,
            owned.len() == n,
            strong.len() == n,
            weak.len() == n,
            deps.len() == m,
            forall|i: int| 0 <= i < n ==> #[trigger] owned[i] == is_owned(nodes, r, i),
            forall|j: int|
                0 <= j < n ==> (#[trigger] strong[j]) == (exists|x: int|
                    0 <= x < m && is_owned(nodes, r, x) && #[trigger] node_needs(nodes, x, j, true)),
            forall|j: int|
                0 <= j < n ==> (#[trigger] weak[j]) == (exists|x: int|
                    0 <= x < m && is_owned(nodes, r, x) && #[trigger] node_needs(nodes, x, j, false)),
            forall|x: int, j: int|
                0 <= x < m && 0 <= j < n && is_owned(nodes, r, x) ==> (#[trigger] listed(deps@, x, j)
                    == node_needs(nodes, x, j, true)),
        decreases n - m,
    {
        let ghost strong0 = strong@;
        let ghost weak0 = weak@;
        let ghost deps0 = deps@;
        if owned[m] {
            let list = collect_needs(cc, m);
            let d = mark_needs(cc, &list, &mut strong, &mut weak);
            deps.push(d);
            proof {
                let views = need_views(list@);
                assert forall|j: int| 0 <= j < n implies (#[trigger] strong[j]) == (exists|x: int|
                    0 <= x < m + 1 && is_owned(nodes, r, x) && #[trigger] node_needs(
                        nodes,
                        x,
                        j,
                        true,
                    )) by {
                    assert(mentions(views, nodes[j].self_tag@, true) == node_needs(
                        nodes,
                        m as int,
                        j,
                        true,
                    ));
                    if strong0[j] {
                        let x = choose|x: int|
                            0 <= x < m && is_owned(nodes, r, x) && #[trigger] node_needs(
                                nodes,
                                x,
                                j,
                                true,
                            );
                        assert(node_needs(nodes, x, j, true));
                    }
                }
                assert forall|j: int| 0 <= j < n implies (#[trigger] weak[j]) == (exists|x: int|
                    0 <= x < m + 1 && is_owned(nodes, r, x) && #[trigger] node_needs(
                        nodes,
                        x,
                        j,
                        false,
                    )) by {
                    assert(mentions(views, nodes[j].self_tag@, false) == node_needs(
                        nodes,
                        m as int,
                        j,
                        false,
                    ));
                    if weak0[j] {
                        let x = choose|x: int|
                            0 <= x < m && is_owned(nodes, r, x) && #[trigger] node_needs(
                                nodes,
                                x,
                                j,
                                false,
                            );
                        assert(node_needs(nodes, x, j, false));
                    }
                }
                assert forall|x: int, j: int|
                    0 <= x < m + 1 && 0 <= j < n && is_owned(nodes, r, x) implies (#[trigger] listed(
                    deps@,
                    x,
                    j,
                ) == node_needs(nodes, x, j, true)) by {
                    if x < m {
                        assert(deps@[x] == deps0[x]);
                        assert(listed(deps0, x, j) == node_needs(nodes, x, j, true));
                    } else {
                        assert(deps@[x] == d);
                        assert(mentions(views, nodes[j].self_tag@, true) == node_needs(
                            nodes,
                            m as int,
                            j,
                            true,
                        ));
                    }
                }
            }
        } else {
            deps.push(Vec::new());
            proof {
                assert forall|x: int, j: int|
                    0 <= x < m + 1 && 0 <= j < n && is_owned(nodes, r, x) implies (#[trigger] listed(
                    deps@,
                    x,
                    j,
                ) == node_needs(nodes, x, j, true)) by {
                    assert(deps@[x] == deps0[x]);
                    assert(listed(deps0, x, j) == node_needs(nodes, x, j, true));
                }
            }
        }
        m += 1;
    }
    let mut included = new_flags(n);
    let mut forwarded = new_flags(n);
    j = 0;
    while j < n
        invariant
            n == cc.nodes().len(),
            nodes == cc.nodes(),
            r == root@,
            j <= n,
            owned.len() == n,
            strong.len() == n,
            weak.len() == n,
            included.len() == n,
            forwarded.len() == n,
            forall|i: int| 0 <= i < n ==> #[trigger] owned[i] == is_owned(nodes, r, i),
            forall|i: int| 0 <= i < n ==> (#[trigger] strong[i]) == unit_needs(nodes, r, i, true),
            forall|i: int| 0 <= i < n ==> (#[trigger] weak[i]) == unit_needs(nodes, r, i, false),
            forall|i: int| 0 <= i < j ==> #[trigger] included[i] == is_included(nodes, r, i),
            forall|i: int| 0 <= i < j ==> #[trigger] forwarded[i] == is_forwarded(nodes, r, i),
        decreases n - j,
    {
        let inc = !owned[j] && strong[j];
        included.set(j, inc);
        forwarded.set(j, (strong[j] || weak[j]) && !inc);
        j += 1;
    }
    let includes = select(&included, Ghost(|j: int| is_included(nodes, r, j)));
    let forward_declarations = select(&forwarded, Ghost(|j: int| is_forwarded(nodes, r, j)));
    let definitions = dependency_order(&deps, &owned);
    proof {
        lemma_order_by_equal_needs(
            n as int,
            |i: int| owned@[i],
            |x: int, j: int| listed(deps@, x, j),
            |j: int| is_owned(nodes, r, j),
            |x: int, j: int| node_needs(nodes, x, j, true),
            definitions@,
        );
    }
    EmissionPlan { includes, forward_declarations, definitions }
}

} // verus!
