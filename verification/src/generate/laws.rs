//! What holds of the registry across requests.
use crate::generate::context_collection::{
    ensured, is_excluded, is_handle, is_missing, is_skeleton_of, lemma_missing_upto, made_from,
    missing_upto, registry_ok, tag_in_range, ContextCollection,
};
use crate::generate::cpp_type::{body_within, has_tag, unique_tags, CppType};
use crate::generate::metadata::Metadata;
use crate::generate::type_tag::TagView;
use vstd::prelude::*;

verus! {

/// Two handles of one tag in a registry are the same handle.
pub proof fn lemma_handle_unique(
    nodes: Seq<CppType>,
    tag: TagView,
    r1: Option<usize>,
    r2: Option<usize>,
)
    requires
        unique_tags(nodes),
        is_handle(nodes, tag, r1),
        is_handle(nodes, tag, r2),
    ensures
        r1 == r2,
{
    match (r1, r2) {
        (Some(i), Some(j)) => {
            if i < j {
                assert(nodes[i as int].self_tag@ != nodes[j as int].self_tag@);
            } else if j < i {
                assert(nodes[j as int].self_tag@ != nodes[i as int].self_tag@);
            }
        },
        (Some(i), None) => {
            assert(nodes[i as int].self_tag@ == tag);
        },
        (None, Some(j)) => {
            assert(nodes[j as int].self_tag@ == tag);
        },
        (None, None) => {},
    }
}

/// After the types enclosed by `d` have been created, each of them that is
/// not blacklisted has a node, and every node from before is where it was.
pub proof fn lemma_made_from_covers(
    md: Metadata,
    a: Seq<CppType>,
    b: Seq<CppType>,
    d: u32,
    r: Option<usize>,
    c: int,
)
    requires
        md.definitions().len() <= u32::MAX,
        made_from(a, b, md, TagView::DefinitionRef(d), r),
        0 <= c < md.definitions().len(),
        md.encloses_spec(d as int, c),
        !md.is_blacklisted_spec(c),
    ensures
        has_tag(b, TagView::DefinitionRef(c as u32)),
        forall|i: int| 0 <= i < a.len() ==> #[trigger] b[i] == a[i],
        a.len() <= b.len(),
{
    let n = md.definitions().len();
    let added = missing_upto(a, md, d as int, n);
    let t = TagView::DefinitionRef(c as u32);
    lemma_missing_upto(a, md, d as int, n);
    assert forall|i: int| 0 <= i < a.len() implies #[trigger] b[i] == a[i] by {
        assert(b.subrange(0, a.len() as int)[i] == b[i]);
    }
    if has_tag(a, t) {
        let i = choose|i: int| 0 <= i < a.len() && (#[trigger] a[i]).self_tag@ == t;
        assert(b[i].self_tag@ == t);
    } else {
        assert(is_missing(a, md, d as int, c));
        assert(added.contains(c as u32));
        let k = choose|k: int| 0 <= k < added.len() && added[k] == c as u32;
        assert(is_skeleton_of(b[a.len() + k], md, TagView::DefinitionRef(added[k])));
        assert(b[a.len() + k].self_tag@ == t);
    }
}

/// Asking for a tag twice gives the same node both times, and the second
/// request leaves the registry as the first one left it.
pub proof fn lemma_make_from_twice(
    md: Metadata,
    a: Seq<CppType>,
    b: Seq<CppType>,
    c: Seq<CppType>,
    tag: TagView,
    r1: Option<usize>,
    r2: Option<usize>,
)
    requires
        md.definitions().len() <= u32::MAX,
        tag_in_range(md, tag),
        unique_tags(b),
        made_from(a, b, md, tag, r1),
        made_from(b, c, md, tag, r2),
    ensures
        c == b,
        r1 == r2,
{
    match tag {
        TagView::DefinitionRef(d) => {
            let n = md.definitions().len();
            let again = missing_upto(b, md, d as int, n);
            lemma_missing_upto(b, md, d as int, n);
            if again.len() > 0 {
                let x = again[0] as int;
                assert(is_missing(b, md, d as int, x));
                lemma_made_from_covers(md, a, b, d, r1, x);
            }
            assert(c =~= c.subrange(0, b.len() as int));
            lemma_handle_unique(b, tag, r1, r2);
        },
        _ => {
            lemma_ensured_twice(md, a, b, c, tag, r1, r2);
        },
    }
}

/// Asking for one node twice gives the same node both times.
pub proof fn lemma_ensured_twice(
    md: Metadata,
    a: Seq<CppType>,
    b: Seq<CppType>,
    c: Seq<CppType>,
    tag: TagView,
    r1: Option<usize>,
    r2: Option<usize>,
)
    requires
        unique_tags(b),
        ensured(a, b, md, tag, r1),
        ensured(b, c, md, tag, r2),
    ensures
        c == b,
        r1 == r2,
{
    if has_tag(a, tag) {
        lemma_handle_unique(b, tag, r1, r2);
    } else if is_excluded(md, tag) {
    } else {
        assert(b[b.len() - 1].self_tag@ == tag);
        assert(has_tag(b, tag));
        lemma_handle_unique(b, tag, r1, r2);
    }
}

/// Two instantiations of one generic definition are one node where their
/// arguments are the same and two nodes where they differ.
pub proof fn lemma_generic_instantiations(
    md: Metadata,
    a: Seq<CppType>,
    b: Seq<CppType>,
    c: Seq<CppType>,
    definition_index: u32,
    first: Seq<u32>,
    second: Seq<u32>,
    r1: Option<usize>,
    r2: Option<usize>,
)
    requires
        !md.is_blacklisted_spec(definition_index as int),
        unique_tags(b),
        ensured(a, b, md, TagView::GenericInstantiation { definition_index, type_arguments: first }, r1),
        ensured(
            b,
            c,
            md,
            TagView::GenericInstantiation { definition_index, type_arguments: second },
            r2,
        ),
    ensures
        r1 is Some,
        r2 is Some,
        first == second ==> r1 == r2 && c == b,
        first != second ==> r1 != r2,
{
    let t1 = TagView::GenericInstantiation { definition_index, type_arguments: first };
    let t2 = TagView::GenericInstantiation { definition_index, type_arguments: second };
    if first == second {
        lemma_ensured_twice(md, a, b, c, t1, r1, r2);
    } else {
        let i = r1.unwrap() as int;
        assert(b[i].self_tag@ == t1) by {
            if !has_tag(a, t1) {
                assert(b[b.len() - 1].self_tag@ == t1);
            }
        }
        if has_tag(b, t2) {
        } else {
            assert(c.drop_last()[i] == b[i]);
        }
    }
}

/// A nested type that was created while its enclosing type was created is
/// the node that a request for the nested type alone gets: the request
/// creates nothing.
pub proof fn lemma_nested_paths_converge(
    md: Metadata,
    a: Seq<CppType>,
    b: Seq<CppType>,
    c: Seq<CppType>,
    enclosing: u32,
    nested: u32,
    r1: Option<usize>,
    r2: Option<usize>,
)
    requires
        md.definitions().len() <= u32::MAX,
        nested < md.definitions().len(),
        md.encloses_spec(enclosing as int, nested as int),
        registry_ok(md, b),
        made_from(a, b, md, TagView::DefinitionRef(enclosing), r1),
        ensured(b, c, md, TagView::DefinitionRef(nested), r2),
    ensures
        c == b,
        !md.is_blacklisted_spec(nested as int) ==> r2 is Some && b[r2.unwrap() as int].self_tag@
            == TagView::DefinitionRef(nested),
        md.is_blacklisted_spec(nested as int) ==> r2 is None,
{
    let t = TagView::DefinitionRef(nested);
    if !md.is_blacklisted_spec(nested as int) {
        lemma_made_from_covers(md, a, b, enclosing, r1, nested as int);
    } else {
        if has_tag(b, t) {
            let i = choose|i: int| 0 <= i < b.len() && (#[trigger] b[i]).self_tag@ == t;
            assert(!is_excluded(md, b[i].self_tag@));
        }
    }
}

/// A nested type that was created on its own is not created again while its
/// enclosing type is created: its node stays, and stays the only one under
/// its tag.
pub proof fn lemma_nested_created_once(
    md: Metadata,
    a: Seq<CppType>,
    b: Seq<CppType>,
    c: Seq<CppType>,
    enclosing: u32,
    nested: u32,
    r1: Option<usize>,
    r2: Option<usize>,
)
    requires
        md.definitions().len() <= u32::MAX,
        nested < md.definitions().len(),
        !md.is_blacklisted_spec(nested as int),
        unique_tags(c),
        ensured(a, b, md, TagView::DefinitionRef(nested), r1),
        made_from(b, c, md, TagView::DefinitionRef(enclosing), r2),
    ensures
        r1 matches Some(i) && i < b.len() && i < c.len() && c[i as int] == b[i as int],
        forall|j: int|
            0 <= j < c.len() && j != r1.unwrap() ==> (#[trigger] c[j]).self_tag@
                != TagView::DefinitionRef(nested),
{
    let t = TagView::DefinitionRef(nested);
    let i = r1.unwrap() as int;
    assert(b[i].self_tag@ == t) by {
        if !has_tag(a, t) {
            assert(b[b.len() - 1].self_tag@ == t);
        }
    }
    assert(c.subrange(0, b.len() as int)[i] == c[i]);
    assert forall|j: int| 0 <= j < c.len() && j != i implies (#[trigger] c[j]).self_tag@ != t by {
        if j < i {
            assert(c[j].self_tag@ != c[i].self_tag@);
        } else {
            assert(c[i].self_tag@ != c[j].self_tag@);
        }
    }
}

impl ContextCollection {
    /// The registry holds one node per tag.
    pub proof fn lemma_one_node_per_tag(&self, i: int, j: int)
        requires
            self.wf(),
            0 <= i < self.nodes().len(),
            0 <= j < self.nodes().len(),
            self.nodes()[i].self_tag@ == self.nodes()[j].self_tag@,
        ensures
            i == j,
    {
        if i < j {
            assert(self.nodes()[i].self_tag@ != self.nodes()[j].self_tag@);
        } else if j < i {
            assert(self.nodes()[j].self_tag@ != self.nodes()[i].self_tag@);
        }
    }

    /// Every reference in the body of a node, whether the node is filled or
    /// not, points at a node of the registry or is a placeholder.
    pub proof fn lemma_references_resolve(&self, i: int)
        requires
            self.wf(),
            0 <= i < self.nodes().len(),
        ensures
            body_within(self.nodes()[i], self.nodes()),
    {
    }

    /// No node is made from a blacklisted definition.
    pub proof fn lemma_blacklist_containment(&self, i: int)
        requires
            self.wf(),
            0 <= i < self.nodes().len(),
        ensures
            !is_excluded(self.metadata(), self.nodes()[i].self_tag@),
    {
    }
}

} // verus!
