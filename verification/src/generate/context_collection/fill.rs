//! Filling: the second phase, in which a skeleton gets its body. Every type
//! that a body mentions is looked up in the registry; one that has no node
//! there becomes a placeholder.
use crate::generate::config::spec_name_cpp;
use crate::generate::context_collection::{node_ok, registry_ok, ContextCollection};
use crate::generate::cpp_type::{
    body_within, has_tag, lemma_body_within_kept, method_within, resolved_within, tags_kept,
    CppField, CppMethod, CppParameter, CppProperty, CppType, ResolvedType, ResolvedView,
    TypeReference,
};
use crate::generate::layout::{offset_of, LayoutError};
use crate::generate::metadata::{
    all_below, definition_ok, method_ok, tables_ok, type_record_ok, FieldDefinition, Metadata,
    MethodDefinition, ParameterDefinition, PropertyDefinition, TypeRecord,
};
use crate::generate::offsets::{
    extent_of, inherited_extent, instance_layout, instance_rank, instance_shapes,
    is_instance_layout, lemma_instance_shapes, packing_of, substitute, substitute_all, substituted,
    substituted_all, InstanceLayout,
};
use crate::generate::type_tag::{SpecialKind, TagView, TypeTag};
use vstd::prelude::*;

verus! {

/// What a request to fill a node came to.
#[derive(Clone, Copy, Debug, PartialEq, Eq, Structural)]
pub enum FillOutcome {
    /// The body was resolved by this request.
    Filled,
    /// The body had been resolved before.
    AlreadyFilled,
    /// The registry has no node under the tag.
    Missing,
}

/// The node of `tag` where the registry has one, a placeholder otherwise.
pub open spec fn node_or_opaque(nodes: Seq<CppType>, tag: TagView) -> ResolvedView {
    if has_tag(nodes, tag) {
        ResolvedView::Node(tag)
    } else {
        ResolvedView::Opaque
    }
}

/// What the type at `ty` resolves to inside a type instantiated with `args`.
/// A definition resolves to its node. A generic instance resolves to the node
/// of that instantiation, or else to the node of the generic definition. An
/// array resolves to the node of the array root. Whatever has no node
/// resolves to a placeholder.
pub open spec fn resolved(md: Metadata, nodes: Seq<CppType>, args: Seq<u32>, ty: int) -> ResolvedView {
    let t = substituted(md, args, ty);
    match md.tables().types[t] {
        TypeRecord::Primitive(p) => ResolvedView::Primitive(p),
        TypeRecord::Definition(d) => node_or_opaque(nodes, TagView::DefinitionRef(d)),
        TypeRecord::GenericInstance { definition_index, type_arguments } => {
            let inst = TagView::GenericInstantiation {
                definition_index,
                type_arguments: if t == ty {
                    substituted_all(md, args, type_arguments@)
                } else {
                    type_arguments@
                },
            };
            if has_tag(nodes, inst) {
                ResolvedView::Node(inst)
            } else {
                node_or_opaque(nodes, TagView::DefinitionRef(definition_index))
            }
        },
        TypeRecord::GenericParameter(k) => ResolvedView::Parameter(k),
        TypeRecord::Array(_) => node_or_opaque(nodes, TagView::Grouped(SpecialKind::ArrayRoot)),
    }
}

/// The concrete arguments that a tag carries.
pub open spec fn tag_arguments(t: TagView) -> Seq<u32> {
    match t {
        TagView::GenericInstantiation { type_arguments, .. } => type_arguments,
        _ => Seq::empty(),
    }
}

pub open spec fn is_reference_to(
    r: TypeReference,
    md: Metadata,
    nodes: Seq<CppType>,
    args: Seq<u32>,
    ty: u32,
) -> bool {
    &&& r.type_index == ty
    &&& r.resolved@ == resolved(md, nodes, args, ty as int)
}

/// A base type that resolves to a placeholder is no base at all, and a node
/// that a handler has claimed is rooted in the hand-authored type of its kind
/// in place of its base type.
pub open spec fn is_base_of(
    b: Option<TypeReference>,
    src: Option<u32>,
    claimed: bool,
    md: Metadata,
    nodes: Seq<CppType>,
    args: Seq<u32>,
) -> bool {
    match src {
        Some(t) => if claimed || resolved(md, nodes, args, t as int) is Opaque {
            b is None
        } else {
            b matches Some(r) && is_reference_to(r, md, nodes, args, t)
        },
        None => b is None,
    }
}

pub open spec fn are_references_to(
    refs: Seq<TypeReference>,
    src: Seq<u32>,
    md: Metadata,
    nodes: Seq<CppType>,
    args: Seq<u32>,
) -> bool {
    &&& refs.len() == src.len()
    &&& forall|k: int|
        0 <= k < src.len() ==> is_reference_to(#[trigger] refs[k], md, nodes, args, src[k])
}

/// Field `k` of definition `d` lies where the instance layout puts it; a
/// static field has no place in an instance.
pub open spec fn is_placed(f: CppField, md: Metadata, d: int, args: Seq<u32>, k: int) -> bool {
    let n = md.definitions().len();
    let def = md.definitions()[d];
    let shapes = instance_shapes(md, d, args, n, def.field_count as nat).unwrap();
    let parent = inherited_extent(md, d, args, n).unwrap();
    let rank = instance_rank(md, d, k as nat) as int;
    if f.is_static {
        f.offset == 0 && f.size == 0
    } else {
        &&& f.offset == offset_of(
            shapes,
            parent.actual_size,
            parent.alignment,
            packing_of(md, d),
            rank,
        )
        &&& f.size == shapes[rank].size
    }
}

pub open spec fn is_field_of(
    f: CppField,
    src: FieldDefinition,
    md: Metadata,
    nodes: Seq<CppType>,
    args: Seq<u32>,
) -> bool {
    &&& f.name@ == spec_name_cpp(src.name@)
    &&& is_reference_to(f.ty, md, nodes, args, src.type_index)
    &&& f.is_static == src.is_static
    &&& f.brief_comment == Some(src.name)
}

pub open spec fn is_parameter_of(
    p: CppParameter,
    src: ParameterDefinition,
    md: Metadata,
    nodes: Seq<CppType>,
    args: Seq<u32>,
) -> bool {
    &&& p.name@ == spec_name_cpp(src.name@)
    &&& is_reference_to(p.ty, md, nodes, args, src.type_index)
    &&& p.def_value == src.default_value
}

pub open spec fn are_parameters_of(
    ps: Seq<CppParameter>,
    start: int,
    count: int,
    md: Metadata,
    nodes: Seq<CppType>,
    args: Seq<u32>,
) -> bool {
    &&& ps.len() == count
    &&& forall|k: int|
        0 <= k < count ==> is_parameter_of(
            #[trigger] ps[k],
            md.tables().parameters[start + k],
            md,
            nodes,
            args,
        )
}

pub open spec fn is_method_of(
    m: CppMethod,
    src: MethodDefinition,
    md: Metadata,
    nodes: Seq<CppType>,
    args: Seq<u32>,
) -> bool {
    &&& m.name@ == spec_name_cpp(src.name@)
    &&& is_reference_to(m.return_type, md, nodes, args, src.return_type)
    &&& m.is_static == src.is_static
    &&& m.brief_comment == Some(src.name)
    &&& are_parameters_of(
        m.parameters@,
        src.parameter_start as int,
        src.parameter_count as int,
        md,
        nodes,
        args,
    )
}

pub open spec fn is_property_of(
    p: CppProperty,
    src: PropertyDefinition,
    md: Metadata,
    nodes: Seq<CppType>,
    args: Seq<u32>,
) -> bool {
    &&& p.name@ == spec_name_cpp(src.name@)
    &&& is_reference_to(p.ty, md, nodes, args, src.type_index)
    &&& p.has_getter == src.has_getter
    &&& p.has_setter == src.has_setter
    &&& p.brief_comment == Some(src.name)
}

pub open spec fn are_fields_of(
    fs: Seq<CppField>,
    md: Metadata,
    nodes: Seq<CppType>,
    d: int,
    args: Seq<u32>,
) -> bool {
    let def = md.definitions()[d];
    &&& fs.len() == def.field_count
    &&& forall|k: int|
        0 <= k < def.field_count ==> is_field_of(
            #[trigger] fs[k],
            md.tables().fields[def.field_start + k],
            md,
            nodes,
            args,
        ) && is_placed(fs[k], md, d, args, k)
}

pub open spec fn are_methods_of(
    ms: Seq<CppMethod>,
    md: Metadata,
    nodes: Seq<CppType>,
    d: int,
    args: Seq<u32>,
) -> bool {
    let def = md.definitions()[d];
    &&& ms.len() == def.method_count
    &&& forall|k: int|
        0 <= k < def.method_count ==> is_method_of(
            #[trigger] ms[k],
            md.tables().methods[def.method_start + k],
            md,
            nodes,
            args,
        )
}

pub open spec fn are_properties_of(
    ps: Seq<CppProperty>,
    md: Metadata,
    nodes: Seq<CppType>,
    d: int,
    args: Seq<u32>,
) -> bool {
    let def = md.definitions()[d];
    &&& ps.len() == def.property_count
    &&& forall|k: int|
        0 <= k < def.property_count ==> is_property_of(
            #[trigger] ps[k],
            md.tables().properties[def.property_start + k],
            md,
            nodes,
            args,
        )
}

/// `after` is `before` with its body resolved against `nodes`: base type,
/// interfaces, fields with their offsets, methods and properties of the
/// definition behind it, under the arguments of its tag; nothing else
/// changes.
pub open spec fn is_body_of(after: CppType, before: CppType, md: Metadata, nodes: Seq<CppType>) -> bool {
    let d = before.self_tag@.definition().unwrap() as int;
    let args = tag_arguments(before.self_tag@);
    let def = md.definitions()[d];
    &&& after == (CppType {
        filled: true,
        base: after.base,
        interfaces: after.interfaces,
        fields: after.fields,
        methods: after.methods,
        properties: after.properties,
        size: after.size,
        alignment: after.alignment,
        ..before
    })
    &&& is_base_of(after.base, def.base_type, before.handler is Some, md, nodes, args)
    &&& are_references_to(after.interfaces@, def.interfaces@, md, nodes, args)
    &&& are_fields_of(after.fields@, md, nodes, d, args)
    &&& are_methods_of(after.methods@, md, nodes, d, args)
    &&& are_properties_of(after.properties@, md, nodes, d, args)
    &&& extent_of(md, d, args, md.definitions().len()) matches Ok(e) && after.size == e.class_size
        && after.alignment == e.alignment
}

/// The outcome of filling `tag`. A node that is missing or filled is left
/// alone. A synthetic node has no body to resolve and is marked as filled. A
/// node made from a definition gets its body, unless its instance cannot be
/// laid out: then nothing changes and the fault is returned.
pub open spec fn filled_by(
    before: Seq<CppType>,
    after: Seq<CppType>,
    md: Metadata,
    tag: TagView,
    r: Result<FillOutcome, LayoutError>,
) -> bool {
    if !has_tag(before, tag) {
        after == before && r == Ok::<FillOutcome, LayoutError>(FillOutcome::Missing)
    } else {
        let i = choose|i: int| 0 <= i < before.len() && (#[trigger] before[i]).self_tag@ == tag;
        if before[i].filled {
            after == before && r == Ok::<FillOutcome, LayoutError>(FillOutcome::AlreadyFilled)
        } else {
            match tag.definition() {
                None => {
                    &&& r == Ok::<FillOutcome, LayoutError>(FillOutcome::Filled)
                    &&& after == before.update(i, CppType { filled: true, ..before[i] })
                },
                Some(d) => match extent_of(
                    md,
                    d as int,
                    tag_arguments(tag),
                    md.definitions().len(),
                ) {
                    Err(e) => after == before && r == Err::<FillOutcome, LayoutError>(e),
                    Ok(_) => {
                        &&& r == Ok::<FillOutcome, LayoutError>(FillOutcome::Filled)
                        &&& after.len() == before.len()
                        &&& forall|j: int|
                            0 <= j < before.len() && j != i ==> #[trigger] after[j] == before[j]
                        &&& is_body_of(after[i], before[i], md, before)
                    },
                },
            }
        }
    }
}

/// Two registries hold nodes under the same tags.
pub open spec fn same_tags(a: Seq<CppType>, b: Seq<CppType>) -> bool {
    &&& a.len() == b.len()
    &&& forall|i: int| 0 <= i < a.len() ==> (#[trigger] a[i]).self_tag@ == b[i].self_tag@
}

/// Resolution looks at nothing but the tags of the registry.
pub proof fn lemma_resolved_same_tags(
    md: Metadata,
    a: Seq<CppType>,
    b: Seq<CppType>,
    args: Seq<u32>,
    ty: int,
)
    requires
        same_tags(a, b),
    ensures
        resolved(md, a, args, ty) == resolved(md, b, args, ty),
{
    assert forall|t: TagView| has_tag(a, t) == has_tag(b, t) by {
        if has_tag(a, t) {
            let i = choose|i: int| 0 <= i < a.len() && (#[trigger] a[i]).self_tag@ == t;
            assert(b[i].self_tag@ == t);
        }
        if has_tag(b, t) {
            let i = choose|i: int| 0 <= i < b.len() && (#[trigger] b[i]).self_tag@ == t;
            assert(a[i].self_tag@ == t);
        }
    }
}

/// A body that is resolved against one registry is resolved against every
/// registry with the same tags.
pub proof fn lemma_body_same_tags(
    after: CppType,
    before: CppType,
    md: Metadata,
    a: Seq<CppType>,
    b: Seq<CppType>,
)
    requires
        same_tags(a, b),
        is_body_of(after, before, md, a),
    ensures
        is_body_of(after, before, md, b),
{
    let d = before.self_tag@.definition().unwrap() as int;
    let args = tag_arguments(before.self_tag@);
    let def = md.definitions()[d];
    assert forall|ty: int| resolved(md, a, args, ty) == resolved(md, b, args, ty) by {
        lemma_resolved_same_tags(md, a, b, args, ty);
    }
    assert forall|k: int| 0 <= k < def.method_count implies is_method_of(
        #[trigger] after.methods@[k],
        md.tables().methods[def.method_start + k],
        md,
        b,
        args,
    ) by {
        assert(is_method_of(after.methods@[k], md.tables().methods[def.method_start + k], md, a, args));
    }
    assert forall|k: int| 0 <= k < def.field_count implies is_field_of(
        #[trigger] after.fields@[k],
        md.tables().fields[def.field_start + k],
        md,
        b,
        args,
    ) && is_placed(after.fields@[k], md, d, args, k) by {
        assert(is_field_of(after.fields@[k], md.tables().fields[def.field_start + k], md, a, args));
    }
    assert forall|k: int| 0 <= k < def.property_count implies is_property_of(
        #[trigger] after.properties@[k],
        md.tables().properties[def.property_start + k],
        md,
        b,
        args,
    ) by {
        assert(is_property_of(
            after.properties@[k],
            md.tables().properties[def.property_start + k],
            md,
            a,
            args,
        ));
    }
}

/// What resolves to a node resolves to a node of the registry.
pub proof fn lemma_resolved_within(md: Metadata, nodes: Seq<CppType>, args: Seq<u32>, ty: int)
    ensures
        resolved_within(resolved(md, nodes, args, ty), nodes),
{
}

/// A node that keeps its tag and its definition and whose body is resolved
/// may take the place of the node at `i`.
pub proof fn lemma_registry_update(md: Metadata, before: Seq<CppType>, i: int, n: CppType)
    requires
        registry_ok(md, before),
        0 <= i < before.len(),
        n.self_tag == before[i].self_tag,
        n.definition == before[i].definition,
        body_within(n, before),
    ensures
        registry_ok(md, before.update(i, n)),
        tags_kept(before, before.update(i, n)),
{
    let after = before.update(i, n);
    assert(tags_kept(before, after));
    assert forall|j: int| 0 <= j < after.len() implies node_ok(md, after, #[trigger] after[j]) by {
        assert(node_ok(md, before, before[j]));
        if j == i {
            lemma_body_within_kept(n, before, after);
        } else {
            lemma_body_within_kept(before[j], before, after);
        }
    }
    assert forall|j: int, k: int| 0 <= j < k < after.len() implies (#[trigger] after[j]).self_tag@
        != (#[trigger] after[k]).self_tag@ by {
        assert(before[j].self_tag@ != before[k].self_tag@);
    }
}

impl ContextCollection {
    fn node_or_placeholder(&self, tag: TypeTag) -> (r: ResolvedType)
        ensures
            r@ == node_or_opaque(self.nodes(), tag@),
    {
        match self.find(&tag) {
            Some(_) => ResolvedType::Node(tag),
            None => ResolvedType::Opaque,
        }
    }

    /// Resolves the type at `ty` inside a type instantiated with `args`.
    pub fn resolve(&self, args: &Vec<u32>, ty: u32) -> (r: TypeReference)
        requires
            self.metadata().wf(),
            ty < self.metadata().tables().types.len(),
            all_below(args@, self.metadata().tables().types.len() as int),
        ensures
            is_reference_to(r, self.metadata(), self.nodes(), args@, ty),
    {
        proof {
            self.metadata.lemma_wf();
        }
        let t = substitute(&self.metadata, args, ty);
        assert(type_record_ok(
            self.metadata.tables().types[t as int],
            self.metadata.tables().type_definitions.len() as int,
            self.metadata.tables().types.len() as int,
        ));
        let resolved = match &self.metadata.get_tables().types[t as usize] {
            TypeRecord::Primitive(p) => ResolvedType::Primitive(*p),
            TypeRecord::Definition(d) => self.node_or_placeholder(TypeTag::DefinitionRef(*d)),
            TypeRecord::GenericInstance { definition_index, type_arguments } => {
                let inner = if t == ty {
                    substitute_all(&self.metadata, args, type_arguments)
                } else {
                    type_arguments.clone()
                };
                let inst = TypeTag::GenericInstantiation {
                    definition_index: *definition_index,
                    type_arguments: inner,
                };
                match self.find(&inst) {
                    Some(_) => ResolvedType::Node(inst),
                    None => self.node_or_placeholder(TypeTag::DefinitionRef(*definition_index)),
                }
            },
            TypeRecord::GenericParameter(k) => ResolvedType::Parameter(*k),
            TypeRecord::Array(_) => self.node_or_placeholder(
                TypeTag::Grouped(SpecialKind::ArrayRoot),
            ),
        };
        TypeReference { type_index: ty, resolved }
    }

    fn resolve_base(&self, args: &Vec<u32>, src: Option<u32>, claimed: bool) -> (r: Option<
        TypeReference,
    >)
        requires
            self.metadata().wf(),
            src matches Some(t) ==> t < self.metadata().tables().types.len(),
            all_below(args@, self.metadata().tables().types.len() as int),
        ensures
            is_base_of(r, src, claimed, self.metadata(), self.nodes(), args@),
    {
        match src {
            Some(t) => {
                if claimed {
                    return None;
                }
                let reference = self.resolve(args, t);
                match reference.resolved {
                    ResolvedType::Opaque => None,
                    _ => Some(reference),
                }
            },
            None => None,
        }
    }

    pub(crate) fn resolve_list(&self, args: &Vec<u32>, src: &Vec<u32>) -> (r: Vec<TypeReference>)
        requires
            self.metadata().wf(),
            all_below(src@, self.metadata().tables().types.len() as int),
            all_below(args@, self.metadata().tables().types.len() as int),
        ensures
            are_references_to(r@, src@, self.metadata(), self.nodes(), args@),
    {
        let mut out: Vec<TypeReference> = Vec::new();
        let mut k: usize = 0;
        while k < src.len()
            invariant
                self.metadata().wf(),
                all_below(src@, self.metadata().tables().types.len() as int),
                all_below(args@, self.metadata().tables().types.len() as int),
                k <= src.len(),
                out.len() == k,
                forall|j: int|
                    0 <= j < k ==> is_reference_to(
                        #[trigger] out[j],
                        self.metadata(),
                        self.nodes(),
                        args@,
                        src[j],
                    ),
            decreases src.len() - k,
        {
            out.push(self.resolve(args, src[k]));
            k += 1;
        }
        out
    }

    fn resolve_fields(&self, d: u32, args: &Vec<u32>, l: &InstanceLayout) -> (r: Vec<CppField>)
        requires
            self.metadata().wf(),
            d < self.metadata().definitions().len(),
            all_below(args@, self.metadata().tables().types.len() as int),
            is_instance_layout(
                self.metadata(),
                d as int,
                args@,
                self.metadata().definitions().len(),
                *l,
            ),
        ensures
            are_fields_of(r@, self.metadata(), self.nodes(), d as int, args@),
    {
        proof {
            self.metadata.lemma_wf();
        }
        let ghost md = self.metadata;
        let ghost n = md.definitions().len();
        let def = self.metadata.type_definition(d);
        assert(definition_ok(md.tables().type_definitions[d as int], md.tables()));
        let start = def.field_start as usize;
        let count = def.field_count as usize;
        let mut out: Vec<CppField> = Vec::new();
        let mut rank: usize = 0;
        let mut k: usize = 0;
        while k < count
            invariant
                self.metadata().wf(),
                md == self.metadata(),
                n == md.definitions().len(),
                tables_ok(md.tables()),
                d < n,
                *def == md.definitions()[d as int],
                all_below(args@, md.tables().types.len() as int),
                is_instance_layout(md, d as int, args@, n, *l),
                start == def.field_start,
                count == def.field_count,
                start + count <= md.tables().fields.len(),
                k <= count,
                out.len() == k,
                rank == instance_rank(md, d as int, k as nat),
                forall|j: int|
                    0 <= j < k ==> is_field_of(
                        #[trigger] out[j],
                        md.tables().fields[start + j],
                        md,
                        self.nodes(),
                        args@,
                    ) && is_placed(out[j], md, d as int, args@, j),
            decreases count - k,
        {
            let f = &self.metadata.get_tables().fields[start + k];
            assert(md.tables().fields[start + k].type_index < md.tables().types.len());
            proof {
                lemma_instance_shapes(md, d as int, args@, n, (k + 1) as nat, count as nat);
                lemma_instance_shapes(md, d as int, args@, n, count as nat, count as nat);
                assert(instance_rank(md, d as int, (k + 1) as nat) == rank + (if f.is_static {
                    0nat
                } else {
                    1nat
                }));
            }
            let mut offset: u32 = 0;
            let mut size: u32 = 0;
            if !f.is_static {
                offset = l.layout.offsets[rank];
                size = l.shapes[rank].size;
                rank += 1;
            }
            out.push(
                CppField {
                    name: self.config.name_cpp(f.name.clone()),
                    ty: self.resolve(args, f.type_index),
                    is_static: f.is_static,
                    offset,
                    size,
                    brief_comment: Some(f.name.clone()),
                },
            );
            k += 1;
        }
        out
    }

    fn resolve_parameters(&self, args: &Vec<u32>, start: u32, count: u32) -> (r: Vec<CppParameter>)
        requires
            self.metadata().wf(),
            start + count <= self.metadata().tables().parameters.len(),
            all_below(args@, self.metadata().tables().types.len() as int),
        ensures
            are_parameters_of(
                r@,
                start as int,
                count as int,
                self.metadata(),
                self.nodes(),
                args@,
            ),
    {
        proof {
            self.metadata.lemma_wf();
        }
        let ghost md = self.metadata;
        let mut out: Vec<CppParameter> = Vec::new();
        let mut k: usize = 0;
        while k < count as usize
            invariant
                self.metadata().wf(),
                md == self.metadata(),
                tables_ok(md.tables()),
                all_below(args@, md.tables().types.len() as int),
                start + count <= md.tables().parameters.len(),
                k <= count,
                out.len() == k,
                forall|j: int|
                    0 <= j < k ==> is_parameter_of(
                        #[trigger] out[j],
                        md.tables().parameters[start + j],
                        md,
                        self.nodes(),
                        args@,
                    ),
            decreases count - k,
        {
            let p = &self.metadata.get_tables().parameters[start as usize + k];
            assert(md.tables().parameters[start + k].type_index < md.tables().types.len());
            out.push(
                CppParameter {
                    name: self.config.name_cpp(p.name.clone()),
                    ty: self.resolve(args, p.type_index),
                    def_value: p.default_value.clone(),
                },
            );
            k += 1;
        }
        out
    }

    fn resolve_methods(&self, d: u32, args: &Vec<u32>) -> (r: Vec<CppMethod>)
        requires
            self.metadata().wf(),
            d < self.metadata().definitions().len(),
            all_below(args@, self.metadata().tables().types.len() as int),
        ensures
            are_methods_of(r@, self.metadata(), self.nodes(), d as int, args@),
    {
        proof {
            self.metadata.lemma_wf();
        }
        let ghost md = self.metadata;
        let def = self.metadata.type_definition(d);
        assert(definition_ok(md.tables().type_definitions[d as int], md.tables()));
        let start = def.method_start as usize;
        let count = def.method_count as usize;
        let mut out: Vec<CppMethod> = Vec::new();
        let mut k: usize = 0;
        while k < count
            invariant
                self.metadata().wf(),
                md == self.metadata(),
                tables_ok(md.tables()),
                all_below(args@, md.tables().types.len() as int),
                start == def.method_start,
                count == def.method_count,
                start + count <= md.tables().methods.len(),
                k <= count,
                out.len() == k,
                forall|j: int|
                    0 <= j < k ==> is_method_of(
                        #[trigger] out[j],
                        md.tables().methods[start + j],
                        md,
                        self.nodes(),
                        args@,
                    ),
            decreases count - k,
        {
            let m = &self.metadata.get_tables().methods[start + k];
            assert(method_ok(md.tables().methods[start + k], md.tables()));
            out.push(
                CppMethod {
                    name: self.config.name_cpp(m.name.clone()),
                    return_type: self.resolve(args, m.return_type),
                    parameters: self.resolve_parameters(args, m.parameter_start, m.parameter_count),
                    is_static: m.is_static,
                    brief_comment: Some(m.name.clone()),
                },
            );
            k += 1;
        }
        out
    }

    fn resolve_properties(&self, d: u32, args: &Vec<u32>) -> (r: Vec<CppProperty>)
        requires
            self.metadata().wf(),
            d < self.metadata().definitions().len(),
            all_below(args@, self.metadata().tables().types.len() as int),
        ensures
            are_properties_of(r@, self.metadata(), self.nodes(), d as int, args@),
    {
        proof {
            self.metadata.lemma_wf();
        }
        let ghost md = self.metadata;
        let def = self.metadata.type_definition(d);
        assert(definition_ok(md.tables().type_definitions[d as int], md.tables()));
        let start = def.property_start as usize;
        let count = def.property_count as usize;
        let mut out: Vec<CppProperty> = Vec::new();
        let mut k: usize = 0;
        while k < count
            invariant
                self.metadata().wf(),
                md == self.metadata(),
                tables_ok(md.tables()),
                all_below(args@, md.tables().types.len() as int),
                start == def.property_start,
                count == def.property_count,
                start + count <= md.tables().properties.len(),
                k <= count,
                out.len() == k,
                forall|j: int|
                    0 <= j < k ==> is_property_of(
                        #[trigger] out[j],
                        md.tables().properties[start + j],
                        md,
                        self.nodes(),
                        args@,
                    ),
            decreases count - k,
        {
            let p = &self.metadata.get_tables().properties[start + k];
            assert(md.tables().properties[start + k].type_index < md.tables().types.len());
            out.push(
                CppProperty {
                    name: self.config.name_cpp(p.name.clone()),
                    ty: self.resolve(args, p.type_index),
                    has_getter: p.has_getter,
                    has_setter: p.has_setter,
                    brief_comment: Some(p.name.clone()),
                },
            );
            k += 1;
        }
        out
    }

    pub(crate) fn arguments_of_tag(tag: &TypeTag) -> (r: Vec<u32>)
        ensures
            r@ == tag_arguments(tag@),
    {
        match tag {
            TypeTag::GenericInstantiation { type_arguments, .. } => type_arguments.clone(),
            _ => {
                let none: Vec<u32> = Vec::new();
                assert(none@ =~= Seq::<u32>::empty());
                none
            },
        }
    }

    /// Resolves the body of the node under `tag`: base type, interfaces,
    /// fields with their offsets, methods and properties. To be called once
    /// every node that a body may mention has been created: what has no node
    /// by then becomes a placeholder.
    pub fn fill(&mut self, tag: &TypeTag) -> (r: Result<FillOutcome, LayoutError>)
        requires
            old(self).wf(),
        ensures
            final(self).wf(),
            final(self).metadata() == old(self).metadata(),
            filled_by(old(self).nodes(), final(self).nodes(), old(self).metadata(), tag@, r),
            tags_kept(old(self).nodes(), final(self).nodes()),
            final(self).nodes().len() == old(self).nodes().len(),
    {
        let ghost before = self.nodes@;
        let ghost md = self.metadata;
        let i = match self.find(tag) {
            Some(i) => i,
            None => {
                return Ok(FillOutcome::Missing);
            },
        };
        proof {
            let c = choose|c: int| 0 <= c < before.len() && (#[trigger] before[c]).self_tag@ == tag@;
            if c != i {
                if c < i {
                    assert(before[c].self_tag@ != before[i as int].self_tag@);
                } else {
                    assert(before[i as int].self_tag@ != before[c].self_tag@);
                }
            }
            assert(node_ok(md, before, before[i as int]));
        }
        if self.nodes[i].filled {
            return Ok(FillOutcome::AlreadyFilled);
        }
        let d = match tag.definition_index() {
            Some(d) => d,
            None => {
                self.nodes[i].filled = true;
                proof {
                    let n = CppType { filled: true, ..before[i as int] };
                    assert(self.nodes@ =~= before.update(i as int, n));
                    lemma_registry_update(md, before, i as int, n);
                }
                return Ok(FillOutcome::Filled);
            },
        };
        let args = Self::arguments_of_tag(tag);
        let l = match instance_layout(&self.metadata, d, &args) {
            Ok(l) => l,
            Err(e) => {
                return Err(e);
            },
        };
        proof {
            self.metadata.lemma_wf();
            assert(definition_ok(md.tables().type_definitions[d as int], md.tables()));
        }
        let def = self.metadata.type_definition(d);
        let base = self.resolve_base(&args, def.base_type, self.nodes[i].handler.is_some());
        let interfaces = self.resolve_list(&args, &def.interfaces);
        let fields = self.resolve_fields(d, &args, &l);
        let methods = self.resolve_methods(d, &args);
        let properties = self.resolve_properties(d, &args);
        self.nodes[i].base = base;
        self.nodes[i].interfaces = interfaces;
        self.nodes[i].fields = fields;
        self.nodes[i].methods = methods;
        self.nodes[i].properties = properties;
        self.nodes[i].size = l.extent.class_size;
        self.nodes[i].alignment = l.extent.alignment;
        self.nodes[i].filled = true;
        proof {
            let n = self.nodes@[i as int];
            assert(self.nodes@ =~= before.update(i as int, n));
            assert(body_within(n, before)) by {
                assert forall|k: int| 0 <= k < n.methods.len() implies method_within(
                    #[trigger] n.methods[k],
                    before,
                ) by {
                    let src = md.tables().methods[def.method_start + k];
                    assert(is_method_of(n.methods[k], src, md, before, args@));
                }
                assert(body_within(before[i as int], before));
            }
            lemma_registry_update(md, before, i as int, n);
        }
        Ok(FillOutcome::Filled)
    }
}

} // verus!
