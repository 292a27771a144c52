//! Comment stripping: the pass that drops the verbose comments of every
//! declaration before emission.
use crate::generate::context_collection::fill::lemma_registry_update;
use crate::generate::context_collection::{node_ok, ContextCollection};
use crate::generate::cpp_type::{
    body_within, method_within, CppField, CppMethod, CppProperty, CppType,
};
use vstd::prelude::*;

verus! {

/// `after` is `before` without the comments on its fields, methods and
/// properties.
pub open spec fn without_comments(after: CppType, before: CppType) -> bool {
    &&& after == (CppType {
        fields: after.fields,
        methods: after.methods,
        properties: after.properties,
        ..before
    })
    &&& after.fields.len() == before.fields.len()
    &&& forall|k: int|
        0 <= k < before.fields.len() ==> #[trigger] after.fields[k] == (CppField {
            brief_comment: None,
            ..before.fields[k]
        })
    &&& after.methods.len() == before.methods.len()
    &&& forall|k: int|
        0 <= k < before.methods.len() ==> #[trigger] after.methods[k] == (CppMethod {
            brief_comment: None,
            ..before.methods[k]
        })
    &&& after.properties.len() == before.properties.len()
    &&& forall|k: int|
        0 <= k < before.properties.len() ==> #[trigger] after.properties[k] == (CppProperty {
            brief_comment: None,
            ..before.properties[k]
        })
}

fn strip_fields(fields: &mut Vec<CppField>)
    ensures
        final(fields).len() == old(fields).len(),
        forall|k: int|
            0 <= k < old(fields).len() ==> #[trigger] final(fields)[k] == (CppField {
                brief_comment: None,
                ..old(fields)[k]
            }),
{
    let mut k: usize = 0;
    while k < fields.len()
        invariant
            fields.len() == old(fields).len(),
            k <= fields.len(),
            forall|j: int|
                0 <= j < k ==> #[trigger] fields[j] == (CppField {
                    brief_comment: None,
                    ..old(fields)[j]
                }),
            forall|j: int| k <= j < fields.len() ==> #[trigger] fields[j] == old(fields)[j],
        decreases fields.len() - k,
    {
        fields[k].brief_comment = None;
        k += 1;
    }
}

fn strip_methods(methods: &mut Vec<CppMethod>)
    ensures
        final(methods).len() == old(methods).len(),
        forall|k: int|
            0 <= k < old(methods).len() ==> #[trigger] final(methods)[k] == (CppMethod {
                brief_comment: None,
                ..old(methods)[k]
            }),
{
    let mut k: usize = 0;
    while k < methods.len()
        invariant
            methods.len() == old(methods).len(),
            k <= methods.len(),
            forall|j: int|
                0 <= j < k ==> #[trigger] methods[j] == (CppMethod {
                    brief_comment: None,
                    ..old(methods)[j]
                }),
            forall|j: int| k <= j < methods.len() ==> #[trigger] methods[j] == old(methods)[j],
        decreases methods.len() - k,
    {
        methods[k].brief_comment = None;
        k += 1;
    }
}

fn strip_properties(properties: &mut Vec<CppProperty>)
    ensures
        final(properties).len() == old(properties).len(),
        forall|k: int|
            0 <= k < old(properties).len() ==> #[trigger] final(properties)[k] == (CppProperty {
                brief_comment: None,
                ..old(properties)[k]
            }),
{
    let mut k: usize = 0;
    while k < properties.len()
        invariant
            properties.len() == old(properties).len(),
            k <= properties.len(),
            forall|j: int|
                0 <= j < k ==> #[trigger] properties[j] == (CppProperty {
                    brief_comment: None,
                    ..old(properties)[j]
                }),
            forall|j: int|
                k <= j < properties.len() ==> #[trigger] properties[j] == old(properties)[j],
        decreases properties.len() - k,
    {
        properties[k].brief_comment = None;
        k += 1;
    }
}

proof fn lemma_without_comments_within(after: CppType, before: CppType, nodes: Seq<CppType>)
    requires
        without_comments(after, before),
        body_within(before, nodes),
    ensures
        body_within(after, nodes),
{
    assert forall|k: int| 0 <= k < after.fields.len() implies crate::generate::cpp_type::resolved_within(
        (#[trigger] after.fields[k]).ty.resolved@,
        nodes,
    ) by {
        assert(after.fields[k].ty == before.fields[k].ty);
    }
    assert forall|k: int| 0 <= k < after.methods.len() implies method_within(
        #[trigger] after.methods[k],
        nodes,
    ) by {
        assert(method_within(before.methods[k], nodes));
        assert(after.methods[k].parameters == before.methods[k].parameters);
    }
    assert forall|k: int|
        0 <= k < after.properties.len() implies crate::generate::cpp_type::resolved_within(
        (#[trigger] after.properties[k]).ty.resolved@,
        nodes,
    ) by {
        assert(after.properties[k].ty == before.properties[k].ty);
    }
}

impl ContextCollection {
    /// Drops the comment of every field, method and property of every node.
    /// Nothing else changes.
    pub fn remove_comments(&mut self)
        requires
            old(self).wf(),
        ensures
            final(self).wf(),
            final(self).metadata() == old(self).metadata(),
            final(self).nodes().len() == old(self).nodes().len(),
            forall|i: int|
                0 <= i < old(self).nodes().len() ==> without_comments(
                    #[trigger] final(self).nodes()[i],
                    old(self).nodes()[i],
                ),
    {
        let ghost before = self.nodes@;
        let ghost md = self.metadata;
        let n = self.nodes.len();
        let mut i: usize = 0;
        while i < n
            invariant
                self.wf(),
                self.metadata() == md,
                md == old(self).metadata(),
                before == old(self).nodes(),
                n == before.len(),
                self.nodes().len() == n,
                i <= n,
                forall|j: int| 0 <= j < i ==> without_comments(#[trigger] self.nodes()[j], before[j]),
                forall|j: int| i <= j < n ==> #[trigger] self.nodes()[j] == before[j],
            decreases n - i,
        {
            let ghost current = self.nodes@;
            strip_fields(&mut self.nodes[i].fields);
            strip_methods(&mut self.nodes[i].methods);
            strip_properties(&mut self.nodes[i].properties);
            proof {
                let node = self.nodes@[i as int];
                assert(self.nodes@ =~= current.update(i as int, node));
                assert(without_comments(node, current[i as int]));
                assert(node_ok(md, current, current[i as int]));
                lemma_without_comments_within(node, current[i as int], current);
                lemma_registry_update(md, current, i as int, node);
            }
            i += 1;
        }
    }
}

} // verus!
