//! What holds of every emission plan.
use crate::generate::context_collection::{is_excluded, registry_ok};
use crate::generate::cpp_type::CppType;
use crate::generate::emit::order::{lemma_order_respects_needs, placed_before};
use crate::generate::emit::plan::{
    is_forwarded, is_included, is_owned, is_plan, lemma_selected, node_needs, unit_needs,
    EmissionPlan,
};
use crate::generate::metadata::Metadata;
use crate::generate::type_tag::TagView;
use vstd::prelude::*;

verus! {

/// The list names the handle `j`.
pub open spec fn names(list: Seq<usize>, j: int) -> bool {
    exists|k: int| 0 <= k < list.len() && #[trigger] list[k] == j
}

/// Every type that a definition of the unit mentions is included or declared
/// ahead; since includes and forward declarations go before the definitions,
/// no definition uses a type before its declaration.
pub proof fn lemma_declared_before_use(
    plan: EmissionPlan,
    nodes: Seq<CppType>,
    root: TagView,
    x: int,
    j: int,
    strong: bool,
)
    requires
        nodes.len() <= usize::MAX,
        is_plan(plan, nodes, root),
        is_owned(nodes, root, x),
        0 <= j < nodes.len(),
        node_needs(nodes, x, j, strong),
    ensures
        names(plan.includes@, j) || names(plan.forward_declarations@, j),
{
    let inc = |i: int| is_included(nodes, root, i);
    let fwd = |i: int| is_forwarded(nodes, root, i);
    lemma_selected(inc, nodes.len());
    lemma_selected(fwd, nodes.len());
    assert(unit_needs(nodes, root, j, strong));
    if is_included(nodes, root, j) {
        assert(inc(j));
    } else {
        assert(is_forwarded(nodes, root, j));
        assert(fwd(j));
    }
}

/// No type is declared in full twice in one unit: the definitions hold every
/// node of the unit once and no other, and no include is a definition or
/// comes twice.
pub proof fn lemma_declared_once(plan: EmissionPlan, nodes: Seq<CppType>, root: TagView)
    requires
        nodes.len() <= usize::MAX,
        is_plan(plan, nodes, root),
    ensures
        forall|a: int, b: int|
            0 <= a < b < plan.definitions.len() ==> plan.definitions[a] != plan.definitions[b],
        forall|a: int, b: int|
            0 <= a < b < plan.includes.len() ==> plan.includes[a] != plan.includes[b],
        forall|a: int, b: int|
            0 <= a < plan.includes.len() && 0 <= b < plan.definitions.len() ==> plan.includes[a]
                != plan.definitions[b],
        forall|k: int|
            0 <= k < plan.definitions.len() ==> is_owned(
                nodes,
                root,
                #[trigger] plan.definitions[k] as int,
            ),
        forall|j: int| #[trigger]
            is_owned(nodes, root, j) ==> names(plan.definitions@, j),
{
    let inc = |i: int| is_included(nodes, root, i);
    let own = |i: int| is_owned(nodes, root, i);
    lemma_selected(inc, nodes.len());
    assert forall|a: int, b: int|
        0 <= a < plan.includes.len() && 0 <= b < plan.definitions.len() implies plan.includes[a]
        != plan.definitions[b] by {
        assert(inc(plan.includes[a] as int));
        assert(own(plan.definitions[b] as int));
    }
    assert forall|k: int| 0 <= k < plan.definitions.len() implies is_owned(
        nodes,
        root,
        #[trigger] plan.definitions[k] as int,
    ) by {
        assert(own(plan.definitions[k] as int));
    }
    assert forall|j: int| #[trigger] is_owned(nodes, root, j) implies names(plan.definitions@, j) by {
        assert(own(j));
        assert(placed_before(plan.definitions@, plan.definitions.len() as int, j));
    }
}

/// Where the full needs among the nodes of a unit are free of circles, each
/// definition stands after the definitions it needs: the base type before
/// the derived, the enclosing type before the nested, the generic definition
/// before its instantiations. The needs are free of circles where some
/// ranking puts every node above all it needs.
pub proof fn lemma_definitions_in_order(
    plan: EmissionPlan,
    nodes: Seq<CppType>,
    root: TagView,
    rank: spec_fn(int) -> int,
    k: int,
    j: int,
)
    requires
        is_plan(plan, nodes, root),
        forall|x: int, y: int|
            x != y && is_owned(nodes, root, x) && is_owned(nodes, root, y) && #[trigger] node_needs(
                nodes,
                x,
                y,
                true,
            ) ==> rank(y) < rank(x),
        0 <= k < plan.definitions.len(),
        is_owned(nodes, root, j),
        j != plan.definitions[k],
        node_needs(nodes, plan.definitions[k] as int, j, true),
    ensures
        placed_before(plan.definitions@, k, j),
{
    let own = |i: int| is_owned(nodes, root, i);
    let nd = |x: int, y: int| node_needs(nodes, x, y, true);
    assert forall|x: int, y: int|
        0 <= x < nodes.len() && 0 <= y < nodes.len() && x != y && own(x) && own(y) && #[trigger] nd(
            x,
            y,
        ) implies rank(y) < rank(x) by {
        assert(node_needs(nodes, x, y, true));
    }
    lemma_order_respects_needs(nodes.len() as int, own, nd, plan.definitions@, rank, k, j);
}

/// Nothing that a plan declares is made from a blacklisted definition: every
/// entry is the handle of a node, and no node is.
pub proof fn lemma_plan_keeps_blacklist(
    plan: EmissionPlan,
    md: Metadata,
    nodes: Seq<CppType>,
    root: TagView,
)
    requires
        nodes.len() <= usize::MAX,
        registry_ok(md, nodes),
        is_plan(plan, nodes, root),
    ensures
        forall|k: int|
            0 <= k < plan.includes.len() ==> (#[trigger] plan.includes[k]) < nodes.len()
                && !is_excluded(md, nodes[plan.includes[k] as int].self_tag@),
        forall|k: int|
            0 <= k < plan.forward_declarations.len() ==> (#[trigger] plan.forward_declarations[k])
                < nodes.len() && !is_excluded(
                md,
                nodes[plan.forward_declarations[k] as int].self_tag@,
            ),
        forall|k: int|
            0 <= k < plan.definitions.len() ==> (#[trigger] plan.definitions[k]) < nodes.len()
                && !is_excluded(md, nodes[plan.definitions[k] as int].self_tag@),
{
    lemma_selected(|i: int| is_included(nodes, root, i), nodes.len());
    lemma_selected(|i: int| is_forwarded(nodes, root, i), nodes.len());
}

} // verus!
