//! Generic instantiations: the nodes of generic definitions applied to
//! concrete arguments, and the specialisations of generic methods.
use crate::generate::context_collection::fill::{
    are_references_to, is_reference_to, lemma_registry_update, resolved, tag_arguments,
};
use crate::generate::context_collection::{
    ensured, is_excluded, node_ok, tag_in_range, ContextCollection,
};
use crate::generate::cpp_type::{
    body_within, has_tag, references_within, resolved_within, tags_kept, CppMethodSpecialization,
    CppType, TypeReference,
};
use crate::generate::metadata::{method_ok, method_spec_ok, Metadata};
use crate::generate::type_tag::{TagView, TypeTag};
use vstd::prelude::*;

verus! {

/// Why a generic instantiation could not be created.
#[derive(Clone, Copy, Debug, PartialEq, Eq, Structural)]
pub enum GenerateError {
    /// The generic definition, given by its index, has no node to
    /// instantiate.
    MissingGenericDefinition(u32),
}

/// The definition that declares the method of an instantiation record.
pub open spec fn declaring_definition(md: Metadata, record: int) -> u32 {
    md.tables().methods[md.tables().method_specs[record].method_index as int].declaring_type
}

/// The tag that an instantiation record asks for: its generic definition
/// applied to its class arguments. A record without class arguments asks for
/// none.
pub open spec fn requested_tag(md: Metadata, record: int) -> Option<TagView> {
    match md.tables().method_specs[record].class_arguments {
        Some(a) => Some(
            TagView::GenericInstantiation {
                definition_index: declaring_definition(md, record),
                type_arguments: a@,
            },
        ),
        None => None,
    }
}

/// The outcome of creating the instantiation that a record asks for. The
/// request fails, and changes nothing, where a new node would have to be made
/// and the generic definition has none.
pub open spec fn generic_made(
    before: Seq<CppType>,
    after: Seq<CppType>,
    md: Metadata,
    record: int,
    r: Result<Option<usize>, GenerateError>,
) -> bool {
    match requested_tag(md, record) {
        None => after == before && r == Ok::<Option<usize>, GenerateError>(None),
        Some(tag) => {
            let d = declaring_definition(md, record);
            if !has_tag(before, tag) && !is_excluded(md, tag) && !has_tag(
                before,
                TagView::DefinitionRef(d),
            ) {
                after == before && r == Err::<Option<usize>, GenerateError>(
                    GenerateError::MissingGenericDefinition(d),
                )
            } else {
                r matches Ok(h) && ensured(before, after, md, tag, h)
            }
        },
    }
}

/// The node that takes the specialisations of the method of a record: the
/// instantiation of the declaring definition where the record has class
/// arguments, the declaring definition itself otherwise.
pub open spec fn specialization_target(md: Metadata, record: int) -> TagView {
    match requested_tag(md, record) {
        Some(t) => t,
        None => TagView::DefinitionRef(declaring_definition(md, record)),
    }
}

pub open spec fn type_indices(refs: Seq<TypeReference>) -> Seq<u32> {
    refs.map_values(|r: TypeReference| r.type_index)
}

/// `n` holds the specialisation of the method for exactly these arguments.
pub open spec fn has_specialization(n: CppType, method_index: u32, arguments: Seq<u32>) -> bool {
    exists|k: int|
        0 <= k < n.method_specializations.len() && (#[trigger] n.method_specializations[k]).method_index
            == method_index && type_indices(n.method_specializations[k].arguments@) == arguments
}

/// The outcome of filling the method specialisation of a record: one more
/// specialisation on the target node, with the method's arguments resolved,
/// unless the record has no method arguments, the target has no node, or the
/// node holds that specialisation already.
pub open spec fn method_specialized(
    before: Seq<CppType>,
    after: Seq<CppType>,
    md: Metadata,
    record: int,
    r: bool,
) -> bool {
    let s = md.tables().method_specs[record];
    let target = specialization_target(md, record);
    match s.method_arguments {
        None => after == before && !r,
        Some(arguments) => if !has_tag(before, target) {
            after == before && !r
        } else {
            let i = choose|i: int| 0 <= i < before.len() && (#[trigger] before[i]).self_tag@ == target;
            if has_specialization(before[i], s.method_index, arguments@) {
                after == before && !r
            } else {
                &&& r
                &&& after.len() == before.len()
                &&& forall|j: int| 0 <= j < before.len() && j != i ==> #[trigger] after[j] == before[j]
                &&& after[i] == (CppType {
                    method_specializations: after[i].method_specializations,
                    ..before[i]
                })
                &&& after[i].method_specializations@.len() == before[i].method_specializations@.len()
                    + 1
                &&& after[i].method_specializations@.drop_last() == before[i].method_specializations@
                &&& after[i].method_specializations@.last().method_index == s.method_index
                &&& are_references_to(
                    after[i].method_specializations@.last().arguments@,
                    arguments@,
                    md,
                    before,
                    tag_arguments(target),
                )
            }
        },
    }
}

fn same_indices(refs: &Vec<TypeReference>, v: &Vec<u32>) -> (r: bool)
    ensures
        r == (type_indices(refs@) == v@),
{
    if refs.len() != v.len() {
        assert(type_indices(refs@).len() != v@.len());
        return false;
    }
    let mut k: usize = 0;
    while k < v.len()
        invariant
            refs.len() == v.len(),
            k <= v.len(),
            forall|j: int| 0 <= j < k ==> (#[trigger] refs[j]).type_index == v[j],
        decreases v.len() - k,
    {
        if refs[k].type_index != v[k] {
            assert(type_indices(refs@)[k as int] != v@[k as int]);
            return false;
        }
        k += 1;
    }
    assert(type_indices(refs@) =~= v@);
    true
}

impl ContextCollection {
    fn find_specialization(n: &CppType, method_index: u32, arguments: &Vec<u32>) -> (r: bool)
        ensures
            r == has_specialization(*n, method_index, arguments@),
    {
        let mut k: usize = 0;
        while k < n.method_specializations.len()
            invariant
                k <= n.method_specializations.len(),
                forall|j: int|
                    0 <= j < k ==> !((#[trigger] n.method_specializations[j]).method_index
                        == method_index && type_indices(n.method_specializations[j].arguments@)
                        == arguments@),
            decreases n.method_specializations.len() - k,
        {
            let s = &n.method_specializations[k];
            if s.method_index == method_index && same_indices(&s.arguments, arguments) {
                return true;
            }
            k += 1;
        }
        false
    }

    fn target_of(&self, record: u32) -> (r: TypeTag)
        requires
            self.metadata().wf(),
            record < self.metadata().tables().method_specs.len(),
        ensures
            r@ == specialization_target(self.metadata(), record as int),
            tag_in_range(self.metadata(), r@),
    {
        proof {
            self.metadata.lemma_wf();
        }
        let t = self.metadata.get_tables();
        let s = &t.method_specs[record as usize];
        assert(method_spec_ok(t.method_specs[record as int], *t));
        assert(method_ok(t.methods[s.method_index as int], *t));
        let d = t.methods[s.method_index as usize].declaring_type;
        match &s.class_arguments {
            Some(a) => TypeTag::GenericInstantiation {
                definition_index: d,
                type_arguments: a.clone(),
            },
            None => TypeTag::DefinitionRef(d),
        }
    }

    /// Creates the node of the generic instantiation that the record at
    /// `method_spec` asks for: the tag of its generic definition and its class
    /// arguments, and under it the skeleton of the definition with the
    /// arguments in place of the parameters. The same arguments reuse the
    /// node; other arguments make another. Returns the handle of the node,
    /// `None` where the record has no class arguments or the definition is
    /// blacklisted.
    pub fn make_generic_from(&mut self, method_spec: u32) -> (r: Result<
        Option<usize>,
        GenerateError,
    >)
        requires
            old(self).wf(),
            method_spec < old(self).metadata().tables().method_specs.len(),
        ensures
            final(self).wf(),
            final(self).metadata() == old(self).metadata(),
            generic_made(
                old(self).nodes(),
                final(self).nodes(),
                old(self).metadata(),
                method_spec as int,
                r,
            ),
    {
        let has_class_arguments =
            self.metadata.get_tables().method_specs[method_spec as usize].class_arguments.is_some();
        if !has_class_arguments {
            return Ok(None);
        }
        let tag = self.target_of(method_spec);
        let d = match tag.definition_index() {
            Some(d) => d,
            None => {
                return Ok(None);
            },
        };
        if self.find(&tag).is_none() && !self.metadata.is_blacklisted(d) && self.find(
            &TypeTag::DefinitionRef(d),
        ).is_none() {
            return Err(GenerateError::MissingGenericDefinition(d));
        }
        Ok(self.ensure_node(&tag))
    }

    /// Resolves the method specialisation that the record at `method_spec`
    /// asks for and adds it to the node of the declaring type. Returns
    /// whether a specialisation was added.
    pub fn fill_generic_method_inst(&mut self, method_spec: u32) -> (r: bool)
        requires
            old(self).wf(),
            method_spec < old(self).metadata().tables().method_specs.len(),
        ensures
            final(self).wf(),
            final(self).metadata() == old(self).metadata(),
            method_specialized(
                old(self).nodes(),
                final(self).nodes(),
                old(self).metadata(),
                method_spec as int,
                r,
            ),
            tags_kept(old(self).nodes(), final(self).nodes()),
            final(self).nodes().len() == old(self).nodes().len(),
    {
        let ghost before = self.nodes@;
        let ghost md = self.metadata;
        proof {
            self.metadata.lemma_wf();
            assert(method_spec_ok(md.tables().method_specs[method_spec as int], md.tables()));
        }
        let arguments = match &self.metadata.get_tables().method_specs[method_spec
            as usize].method_arguments {
            Some(a) => a.clone(),
            None => {
                return false;
            },
        };
        let method_index = self.metadata.get_tables().method_specs[method_spec as usize].method_index;
        let target = self.target_of(method_spec);
        let i = match self.find(&target) {
            Some(i) => i,
            None => {
                return false;
            },
        };
        proof {
            let c = choose|c: int|
                0 <= c < before.len() && (#[trigger] before[c]).self_tag@ == target@;
            if c != i {
                if c < i {
                    assert(before[c].self_tag@ != before[i as int].self_tag@);
                } else {
                    assert(before[i as int].self_tag@ != before[c].self_tag@);
                }
            }
            assert(node_ok(md, before, before[i as int]));
        }
        if Self::find_specialization(&self.nodes[i], method_index, &arguments) {
            return false;
        }
        let context = Self::arguments_of_tag(&target);
        let resolved_arguments = self.resolve_list(&context, &arguments);
        self.nodes[i].method_specializations.push(
            CppMethodSpecialization { method_index, arguments: resolved_arguments },
        );
        proof {
            let n = self.nodes@[i as int];
            assert(self.nodes@ =~= before.update(i as int, n));
            assert(n.method_specializations@.drop_last() =~= before[i as int].method_specializations@);
            assert(body_within(n, before)) by {
                assert(body_within(before[i as int], before));
                assert forall|k: int| 0 <= k < n.method_specializations.len() implies references_within(
                    (#[trigger] n.method_specializations[k]).arguments@,
                    before,
                ) by {
                    if k < before[i as int].method_specializations.len() {
                        assert(n.method_specializations@.drop_last()[k]
                            == n.method_specializations[k]);
                    } else {
                        let added = n.method_specializations[k].arguments@;
                        assert forall|a: int| 0 <= a < added.len() implies resolved_within(
                            (#[trigger] added[a]).resolved@,
                            before,
                        ) by {
                            assert(is_reference_to(added[a], md, before, context@, arguments[a]));
                        }
                    }
                }
            }
            lemma_registry_update(md, before, i as int, n);
        }
        true
    }
}

} // verus!
