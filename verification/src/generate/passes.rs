//! The passes of one generation run, each over the whole registry: create the
//! top-level types with what they enclose, create the nested types, create
//! the generic instantiations, fill the method specialisations, fill every
//! node.
use crate::generate::context_collection::fill::{
    is_body_of, lemma_body_same_tags, same_tags, tag_arguments,
};
use crate::generate::context_collection::generic::{requested_tag, GenerateError};
use crate::generate::context_collection::{
    ensured, is_excluded, is_skeleton_of, lemma_missing_upto, made_from, missing_upto, registry_ok,
    ContextCollection,
};
use crate::generate::cpp_type::{has_tag, CppType};
use crate::generate::laws::lemma_made_from_covers;
use crate::generate::layout::LayoutError;
use crate::generate::metadata::Metadata;
use crate::generate::offsets::extent_of;
use crate::generate::type_tag::{TagView, TypeTag};
use vstd::prelude::*;

verus! {

/// Node `k` of `after` is new: the skeleton of a type definition that is not
/// blacklisted and had no node in `before`.
pub open spec fn is_new_skeleton(
    before: Seq<CppType>,
    after: Seq<CppType>,
    md: Metadata,
    k: int,
) -> bool {
    &&& after[k].self_tag@ matches TagView::DefinitionRef(d)
    &&& d < md.definitions().len()
    &&& !md.is_blacklisted_spec(d as int)
    &&& !has_tag(before, TagView::DefinitionRef(d))
    &&& is_skeleton_of(after[k], md, TagView::DefinitionRef(d))
}

/// `after` is `before` followed by new skeletons.
pub open spec fn grown_by_skeletons(before: Seq<CppType>, after: Seq<CppType>, md: Metadata) -> bool {
    &&& before.len() <= after.len()
    &&& forall|i: int| 0 <= i < before.len() ==> #[trigger] after[i] == before[i]
    &&& forall|k: int| before.len() <= k < after.len() ==> #[trigger] is_new_skeleton(before, after, md, k)
}

/// Definition `d` is top-level or nested in a top-level definition.
pub open spec fn has_top_level(md: Metadata, d: int) -> bool {
    exists|r: int|
        0 <= r < md.definitions().len() && md.definitions()[r].declaring_type is None
            && #[trigger] md.encloses_spec(r, d)
}

proof fn lemma_grown_step(
    md: Metadata,
    before: Seq<CppType>,
    current: Seq<CppType>,
    next: Seq<CppType>,
)
    requires
        grown_by_skeletons(before, current, md),
        current.len() <= next.len(),
        forall|i: int| 0 <= i < current.len() ==> #[trigger] next[i] == current[i],
        forall|k: int| current.len() <= k < next.len() ==> #[trigger] is_new_skeleton(current, next, md, k),
    ensures
        grown_by_skeletons(before, next, md),
{
    assert forall|k: int| before.len() <= k < next.len() implies #[trigger] is_new_skeleton(
        before,
        next,
        md,
        k,
    ) by {
        if k < current.len() {
            assert(is_new_skeleton(before, current, md, k));
        } else {
            assert(is_new_skeleton(current, next, md, k));
            let d = next[k].self_tag@->DefinitionRef_0;
            let t = TagView::DefinitionRef(d);
            if has_tag(before, t) {
                let i = choose|i: int| 0 <= i < before.len() && (#[trigger] before[i]).self_tag@ == t;
                assert(current[i].self_tag@ == t);
            }
        }
    }
}

proof fn lemma_ensured_grows(
    md: Metadata,
    current: Seq<CppType>,
    next: Seq<CppType>,
    d: u32,
    r: Option<usize>,
)
    requires
        d < md.definitions().len(),
        ensured(current, next, md, TagView::DefinitionRef(d), r),
    ensures
        current.len() <= next.len(),
        forall|i: int| 0 <= i < current.len() ==> #[trigger] next[i] == current[i],
        forall|k: int| current.len() <= k < next.len() ==> #[trigger] is_new_skeleton(current, next, md, k),
        !md.is_blacklisted_spec(d as int) ==> has_tag(next, TagView::DefinitionRef(d)),
{
    let t = TagView::DefinitionRef(d);
    if !has_tag(current, t) && !is_excluded(md, t) {
        assert forall|i: int| 0 <= i < current.len() implies #[trigger] next[i] == current[i] by {
            assert(next.drop_last()[i] == current[i]);
        }
        assert(next[next.len() - 1].self_tag@ == t);
    }
}

proof fn lemma_made_from_grows(
    md: Metadata,
    current: Seq<CppType>,
    next: Seq<CppType>,
    d: u32,
    r: Option<usize>,
)
    requires
        md.definitions().len() <= u32::MAX,
        d < md.definitions().len(),
        made_from(current, next, md, TagView::DefinitionRef(d), r),
    ensures
        current.len() <= next.len(),
        forall|i: int| 0 <= i < current.len() ==> #[trigger] next[i] == current[i],
        forall|k: int| current.len() <= k < next.len() ==> #[trigger] is_new_skeleton(current, next, md, k),
{
    let n = md.definitions().len();
    let added = missing_upto(current, md, d as int, n);
    lemma_missing_upto(current, md, d as int, n);
    assert forall|i: int| 0 <= i < current.len() implies #[trigger] next[i] == current[i] by {
        assert(next.subrange(0, current.len() as int)[i] == next[i]);
    }
    assert forall|k: int| current.len() <= k < next.len() implies #[trigger] is_new_skeleton(
        current,
        next,
        md,
        k,
    ) by {
        let a = k - current.len();
        assert(is_skeleton_of(next[current.len() + a], md, TagView::DefinitionRef(added[a])));
    }
}

proof fn lemma_has_tag_grows(a: Seq<CppType>, b: Seq<CppType>, t: TagView)
    requires
        a.len() <= b.len(),
        forall|i: int| 0 <= i < a.len() ==> #[trigger] b[i] == a[i],
        has_tag(a, t),
    ensures
        has_tag(b, t),
{
    let i = choose|i: int| 0 <= i < a.len() && (#[trigger] a[i]).self_tag@ == t;
    assert(b[i].self_tag@ == t);
}

/// The first pass: creates every top-level type with all that it encloses.
/// Afterwards each definition that is not blacklisted and is top-level or
/// nested in a top-level definition has its node; the nodes from before are
/// where they were, and each new node is the skeleton of a definition that
/// had none.
pub fn make_top_level_types(cc: &mut ContextCollection)
    requires
        old(cc).wf(),
    ensures
        final(cc).wf(),
        final(cc).metadata() == old(cc).metadata(),
        grown_by_skeletons(old(cc).nodes(), final(cc).nodes(), old(cc).metadata()),
        forall|d: int|
            0 <= d < old(cc).metadata().definitions().len() && !old(cc).metadata().is_blacklisted_spec(
                d,
            ) && #[trigger] has_top_level(old(cc).metadata(), d) ==> has_tag(
                final(cc).nodes(),
                TagView::DefinitionRef(d as u32),
            ),
{
    let ghost before = cc.nodes();
    let ghost md = cc.metadata();
    let n = cc.get_metadata().type_definition_count();
    proof {
        md.lemma_wf();
    }
    let mut tdi: usize = 0;
    while tdi < n
        invariant
            cc.wf(),
            cc.metadata() == md,
            n == md.definitions().len(),
            n <= u32::MAX,
            tdi <= n,
            grown_by_skeletons(before, cc.nodes(), md),
            forall|r: int, d: int|
                0 <= r < tdi && md.definitions()[r].declaring_type is None && 0 <= d < n
                    && !md.is_blacklisted_spec(d) && #[trigger] md.encloses_spec(r, d) ==> has_tag(
                    cc.nodes(),
                    TagView::DefinitionRef(d as u32),
                ),
        decreases n - tdi,
    {
        let ghost current = cc.nodes();
        if !cc.get_metadata().is_nested(tdi as u32) {
            let tag = TypeTag::DefinitionRef(tdi as u32);
            let r = cc.make_from(&tag);
            proof {
                let next = cc.nodes();
                lemma_made_from_grows(md, current, next, tdi as u32, r);
                lemma_grown_step(md, before, current, next);
                assert forall|r0: int, d: int|
                    0 <= r0 < tdi + 1 && md.definitions()[r0].declaring_type is None && 0 <= d < n
                        && !md.is_blacklisted_spec(d) && #[trigger] md.encloses_spec(
                        r0,
                        d,
                    ) implies has_tag(next, TagView::DefinitionRef(d as u32)) by {
                    if r0 < tdi {
                        lemma_has_tag_grows(current, next, TagView::DefinitionRef(d as u32));
                    } else {
                        lemma_made_from_covers(md, current, next, tdi as u32, r, d);
                    }
                }
            }
        }
        tdi += 1;
    }
}

/// The second pass: creates every nested type on its own. Afterwards each
/// nested definition that is not blacklisted has its node; the nodes from
/// before are where they were, and each new node is the skeleton of a
/// definition that had none.
pub fn make_nested_types(cc: &mut ContextCollection)
    requires
        old(cc).wf(),
    ensures
        final(cc).wf(),
        final(cc).metadata() == old(cc).metadata(),
        grown_by_skeletons(old(cc).nodes(), final(cc).nodes(), old(cc).metadata()),
        forall|d: int|
            0 <= d < old(cc).metadata().definitions().len() && !old(cc).metadata().is_blacklisted_spec(
                d,
            ) && (#[trigger] old(cc).metadata().definitions()[d]).declaring_type is Some ==> has_tag(
                final(cc).nodes(),
                TagView::DefinitionRef(d as u32),
            ),
{
    let ghost before = cc.nodes();
    let ghost md = cc.metadata();
    let n = cc.get_metadata().type_definition_count();
    proof {
        md.lemma_wf();
    }
    let mut tdi: usize = 0;
    while tdi < n
        invariant
            cc.wf(),
            cc.metadata() == md,
            n == md.definitions().len(),
            n <= u32::MAX,
            tdi <= n,
            grown_by_skeletons(before, cc.nodes(), md),
            forall|d: int|
                0 <= d < tdi && !md.is_blacklisted_spec(d) && (#[trigger] md.definitions()[d]).declaring_type
                    is Some ==> has_tag(cc.nodes(), TagView::DefinitionRef(d as u32)),
        decreases n - tdi,
    {
        let ghost current = cc.nodes();
        if cc.get_metadata().is_nested(tdi as u32) {
            let r = cc.make_nested_from(tdi as u32);
            proof {
                let next = cc.nodes();
                lemma_ensured_grows(md, current, next, tdi as u32, r);
                lemma_grown_step(md, before, current, next);
                assert forall|d: int|
                    0 <= d < tdi + 1 && !md.is_blacklisted_spec(d) && (#[trigger] md.definitions()[d]).declaring_type
                        is Some implies has_tag(next, TagView::DefinitionRef(d as u32)) by {
                    if d < tdi {
                        lemma_has_tag_grows(current, next, TagView::DefinitionRef(d as u32));
                    }
                }
            }
        }
        tdi += 1;
    }
}

/// Node `k` of `after` is new: the skeleton of an instantiation that some
/// record asks for and that had no node in `before`.
pub open spec fn is_new_instantiation(
    before: Seq<CppType>,
    after: Seq<CppType>,
    md: Metadata,
    k: int,
) -> bool {
    &&& !has_tag(before, after[k].self_tag@)
    &&& is_skeleton_of(after[k], md, after[k].self_tag@)
    &&& exists|s: int|
        0 <= s < md.tables().method_specs.len() && #[trigger] requested_tag(md, s) == Some(
            after[k].self_tag@,
        )
}

/// `after` is `before` followed by new instantiations.
pub open spec fn grown_by_instantiations(
    before: Seq<CppType>,
    after: Seq<CppType>,
    md: Metadata,
) -> bool {
    &&& before.len() <= after.len()
    &&& forall|i: int| 0 <= i < before.len() ==> #[trigger] after[i] == before[i]
    &&& forall|k: int|
        before.len() <= k < after.len() ==> #[trigger] is_new_instantiation(before, after, md, k)
}

/// The instantiation that record `s` asks for has its node, unless the
/// record asks for none or for one of a blacklisted definition.
pub open spec fn is_served(nodes: Seq<CppType>, md: Metadata, s: int) -> bool {
    requested_tag(md, s) matches Some(t) ==> is_excluded(md, t) || has_tag(nodes, t)
}

/// The outcome of the generic pass: every instantiation record served, in
/// the order of the records. The pass stops at the first record whose
/// generic definition has no node, with the records before it served.
pub open spec fn generics_made(
    before: Seq<CppType>,
    after: Seq<CppType>,
    md: Metadata,
    r: Result<(), GenerateError>,
) -> bool {
    &&& grown_by_instantiations(before, after, md)
    &&& match r {
        Ok(_) => forall|s: int|
            0 <= s < md.tables().method_specs.len() ==> #[trigger] is_served(after, md, s),
        Err(e) => exists|stop: int|
            {
                &&& 0 <= stop < md.tables().method_specs.len()
                &&& #[trigger] requested_tag(md, stop) matches Some(t)
                &&& !is_excluded(md, t)
                &&& !has_tag(after, t)
                &&& t.definition() matches Some(d)
                &&& !has_tag(after, TagView::DefinitionRef(d))
                &&& e == GenerateError::MissingGenericDefinition(d)
                &&& forall|s: int| 0 <= s < stop ==> #[trigger] is_served(after, md, s)
            },
    }
}

/// The generic pass: creates the instantiation that each record asks for,
/// so that the generic instantiations mentioned anywhere have their nodes
/// before any body is resolved.
pub fn make_generic_types(cc: &mut ContextCollection) -> (r: Result<(), GenerateError>)
    requires
        old(cc).wf(),
    ensures
        final(cc).wf(),
        final(cc).metadata() == old(cc).metadata(),
        generics_made(old(cc).nodes(), final(cc).nodes(), old(cc).metadata(), r),
{
    let ghost before = cc.nodes();
    let ghost md = cc.metadata();
    let n = cc.get_metadata().get_tables().method_specs.len();
    proof {
        md.lemma_wf();
    }
    let mut s: usize = 0;
    while s < n
        invariant
            cc.wf(),
            cc.metadata() == md,
            md == old(cc).metadata(),
            before == old(cc).nodes(),
            n == md.tables().method_specs.len(),
            n <= u32::MAX,
            s <= n,
            grown_by_instantiations(before, cc.nodes(), md),
            forall|q: int| 0 <= q < s ==> #[trigger] is_served(cc.nodes(), md, q),
        decreases n - s,
    {
        let ghost current = cc.nodes();
        let outcome = cc.make_generic_from(s as u32);
        proof {
            let next = cc.nodes();
            assert(current.len() <= next.len() && (forall|i: int|
                0 <= i < current.len() ==> #[trigger] next[i] == current[i])) by {
                if next != current {
                    assert forall|i: int| 0 <= i < current.len() implies #[trigger] next[i]
                        == current[i] by {
                        assert(next.drop_last()[i] == current[i]);
                    }
                }
            }
            assert forall|k: int| before.len() <= k < next.len() implies #[trigger] is_new_instantiation(
                before,
                next,
                md,
                k,
            ) by {
                if k < current.len() {
                    assert(is_new_instantiation(before, current, md, k));
                } else {
                    let t = requested_tag(md, s as int).unwrap();
                    assert(next[k] == next.last());
                    if has_tag(before, t) {
                        lemma_has_tag_grows(before, current, t);
                    }
                }
            }
            assert forall|q: int| 0 <= q < s implies #[trigger] is_served(next, md, q) by {
                assert(is_served(current, md, q));
                if requested_tag(md, q) is Some {
                    let t = requested_tag(md, q).unwrap();
                    if has_tag(current, t) {
                        lemma_has_tag_grows(current, next, t);
                    }
                }
            }
        }
        match outcome {
            Err(e) => {
                return Err(e);
            },
            Ok(_) => {
                proof {
                    let next = cc.nodes();
                    if requested_tag(md, s as int) is Some {
                        let t = requested_tag(md, s as int).unwrap();
                        if !is_excluded(md, t) {
                            if has_tag(current, t) {
                            } else {
                                assert(next[next.len() - 1].self_tag@ == t);
                            }
                        }
                    }
                }
            },
        }
        s += 1;
    }
    Ok(())
}

/// What filling leaves of a node: a filled node as it was, a synthetic node
/// marked as filled, any other with its body resolved against the registry.
pub open spec fn is_filled_form(after: CppType, before: CppType, md: Metadata, nodes: Seq<CppType>) -> bool {
    if before.filled {
        after == before
    } else if before.self_tag@.definition() is None {
        after == (CppType { filled: true, ..before })
    } else {
        is_body_of(after, before, md, nodes)
    }
}

/// The instance of the definition behind `n` cannot be laid out, for the
/// reason `e`.
pub open spec fn has_layout_fault(n: CppType, md: Metadata, e: LayoutError) -> bool {
    &&& !n.filled
    &&& n.self_tag@.definition() matches Some(d)
    &&& extent_of(md, d as int, tag_arguments(n.self_tag@), md.definitions().len()) == Err::<
        crate::generate::offsets::Extent,
        LayoutError,
    >(e)
}

/// The outcome of the fill pass. Every node is filled, in the order of the
/// handles; no node is added or moved. The pass stops at the first node
/// whose instance cannot be laid out, with the nodes before it filled and
/// the rest as they were.
pub open spec fn all_filled(
    before: Seq<CppType>,
    after: Seq<CppType>,
    md: Metadata,
    r: Result<(), LayoutError>,
) -> bool {
    &&& after.len() == before.len()
    &&& match r {
        Ok(_) => forall|i: int|
            0 <= i < before.len() ==> is_filled_form(#[trigger] after[i], before[i], md, before),
        Err(e) => exists|stop: int|
            {
                &&& 0 <= stop < before.len()
                &&& #[trigger] has_layout_fault(before[stop], md, e)
                &&& forall|i: int|
                    0 <= i < stop ==> is_filled_form(#[trigger] after[i], before[i], md, before)
                &&& forall|i: int| stop <= i < before.len() ==> #[trigger] after[i] == before[i]
            },
    }
}

/// The fill pass: resolves the body of every node. To be run when every
/// creation pass is complete, so that every type that a body mentions has
/// its node or is left out for good.
pub fn fill_types(cc: &mut ContextCollection) -> (r: Result<(), LayoutError>)
    requires
        old(cc).wf(),
    ensures
        final(cc).wf(),
        final(cc).metadata() == old(cc).metadata(),
        all_filled(old(cc).nodes(), final(cc).nodes(), old(cc).metadata(), r),
{
    let ghost before = cc.nodes();
    let ghost md = cc.metadata();
    let n = cc.len();
    let mut i: usize = 0;
    while i < n
        invariant
            cc.wf(),
            cc.metadata() == md,
            md == old(cc).metadata(),
            before == old(cc).nodes(),
            registry_ok(md, before),
            n == before.len(),
            cc.nodes().len() == n,
            i <= n,
            same_tags(before, cc.nodes()),
            forall|j: int| 0 <= j < i ==> is_filled_form(#[trigger] cc.nodes()[j], before[j], md, before),
            forall|j: int| i <= j < n ==> #[trigger] cc.nodes()[j] == before[j],
        decreases n - i,
    {
        let ghost current = cc.nodes();
        let tag = cc.get(i).self_tag.duplicate();
        let outcome = cc.fill(&tag);
        proof {
            let next = cc.nodes();
            assert(has_tag(current, tag@)) by {
                assert(current[i as int].self_tag@ == tag@);
            }
            let c = choose|c: int| 0 <= c < current.len() && (#[trigger] current[c]).self_tag@ == tag@;
            assert(c == i) by {
                if c < i {
                    assert(current[c].self_tag@ != current[i as int].self_tag@);
                } else if i < c {
                    assert(current[i as int].self_tag@ != current[c].self_tag@);
                }
            }
        }
        match outcome {
            Err(e) => {
                proof {
                    assert(has_layout_fault(before[i as int], md, e));
                }
                return Err(e);
            },
            Ok(_) => {
                proof {
                    let next = cc.nodes();
                    if !current[i as int].filled && current[i as int].self_tag@.definition() is Some {
                        lemma_body_same_tags(next[i as int], current[i as int], md, current, before);
                    }
                    assert forall|j: int| 0 <= j < i + 1 implies is_filled_form(
                        #[trigger] next[j],
                        before[j],
                        md,
                        before,
                    ) by {
                        if j < i {
                            assert(next[j] == current[j]);
                        }
                    }
                    assert forall|j: int| i + 1 <= j < n implies #[trigger] next[j] == before[j] by {
                        assert(next[j] == current[j]);
                    }
                }
            },
        }
        i += 1;
    }
    Ok(())
}

} // verus!
