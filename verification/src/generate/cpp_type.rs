//! The nodes of the type graph: one emittable type each, first as a skeleton
//! with an identity and a name, later with a resolved body.
use crate::generate::metadata::Primitive;
use crate::generate::type_tag::{SpecialKind, TagView, TypeTag};
use vstd::prelude::*;

verus! {

/// What a reference to a type has been resolved to.
#[derive(Clone, Debug, PartialEq, Eq)]
pub enum ResolvedType {
    Primitive(Primitive),
    /// A node of the registry, by its tag.
    Node(TypeTag),
    /// A generic parameter of the enclosing template, by position.
    Parameter(u32),
    /// An erased placeholder, for a type that has no node.
    Opaque,
}

pub enum ResolvedView {
    Primitive(Primitive),
    Node(TagView),
    Parameter(u32),
    Opaque,
}

impl View for ResolvedType {
    type V = ResolvedView;

    open spec fn view(&self) -> ResolvedView {
        match *self {
            ResolvedType::Primitive(p) => ResolvedView::Primitive(p),
            ResolvedType::Node(t) => ResolvedView::Node(t@),
            ResolvedType::Parameter(k) => ResolvedView::Parameter(k),
            ResolvedType::Opaque => ResolvedView::Opaque,
        }
    }
}

/// A use of a type inside a body: the type index it came from and what that
/// index resolved to.
#[derive(Clone, Debug, PartialEq, Eq)]
pub struct TypeReference {
    pub type_index: u32,
    pub resolved: ResolvedType,
}

#[derive(Clone, Debug)]
pub struct CppField {
    pub name: String,
    pub ty: TypeReference,
    pub is_static: bool,
    /// Byte offset inside an instance; 0 for a static field.
    pub offset: u32,
    /// Bytes that the field takes inside an instance; 0 for a static field.
    pub size: u32,
    pub brief_comment: Option<String>,
}

#[derive(Clone, Debug)]
pub struct CppParameter {
    pub name: String,
    pub ty: TypeReference,
    pub def_value: Option<String>,
}

#[derive(Clone, Debug)]
pub struct CppMethod {
    pub name: String,
    pub return_type: TypeReference,
    pub parameters: Vec<CppParameter>,
    pub is_static: bool,
    pub brief_comment: Option<String>,
}

#[derive(Clone, Debug)]
pub struct CppProperty {
    pub name: String,
    pub ty: TypeReference,
    pub has_getter: bool,
    pub has_setter: bool,
    pub brief_comment: Option<String>,
}

/// A method of a generic definition specialised for concrete arguments.
#[derive(Clone, Debug)]
pub struct CppMethodSpecialization {
    pub method_index: u32,
    pub arguments: Vec<TypeReference>,
}

/// One emittable type.
#[derive(Clone, Debug)]
pub struct CppType {
    pub self_tag: TypeTag,
    /// The tag of the top-level type whose compilation unit owns this node.
    pub context_root: TypeTag,
    /// The enclosing type of a nested type.
    pub parent: Option<TypeTag>,
    /// The type definition that the node is made from; `None` for a
    /// synthetic node.
    pub definition: Option<u32>,
    pub namespace: String,
    /// The names of the enclosing types, outermost first; empty until the
    /// owner's nested types are filled.
    pub enclosing: Vec<String>,
    /// Whether the owner has placed this node inside its own declaration.
    pub declared_in_parent: bool,
    pub name: String,
    /// The generic parameters of a template; empty otherwise.
    pub template_parameters: Vec<String>,
    /// The concrete arguments of a generic instantiation.
    pub generic_arguments: Option<Vec<u32>>,
    pub is_value_type: bool,
    pub is_enum_type: bool,
    pub is_interface: bool,
    /// The tags of the types nested directly in this one.
    pub nested_types: Vec<TypeTag>,
    /// Whether the body below has been resolved.
    pub filled: bool,
    pub base: Option<TypeReference>,
    pub interfaces: Vec<TypeReference>,
    pub fields: Vec<CppField>,
    pub methods: Vec<CppMethod>,
    pub properties: Vec<CppProperty>,
    pub method_specializations: Vec<CppMethodSpecialization>,
    /// Instance size in bytes, once filled.
    pub size: u32,
    /// Instance alignment in bytes, once filled.
    pub alignment: u8,
    /// The runtime-special kind whose handler has claimed the node.
    pub handler: Option<SpecialKind>,
}

/// The views of a list of tags.
pub open spec fn tag_views(tags: Seq<TypeTag>) -> Seq<TagView> {
    tags.map_values(|t: TypeTag| t@)
}

/// The views of a list of names.
pub open spec fn name_views(names: Seq<String>) -> Seq<Seq<char>> {
    names.map_values(|s: String| s@)
}

pub open spec fn option_tag_view(t: Option<TypeTag>) -> Option<TagView> {
    match t {
        Some(t) => Some(t@),
        None => None,
    }
}

/// Some node carries the tag `t`.
pub open spec fn has_tag(nodes: Seq<CppType>, t: TagView) -> bool {
    exists|i: int| 0 <= i < nodes.len() && (#[trigger] nodes[i]).self_tag@ == t
}

/// No two nodes carry the same tag.
pub open spec fn unique_tags(nodes: Seq<CppType>) -> bool {
    forall|i: int, j: int|
        0 <= i < j < nodes.len() ==> (#[trigger] nodes[i]).self_tag@ != (#[trigger] nodes[j]).self_tag@
}

/// A resolved reference points at a node of `nodes` or at none at all.
pub open spec fn resolved_within(r: ResolvedView, nodes: Seq<CppType>) -> bool {
    r matches ResolvedView::Node(t) ==> has_tag(nodes, t)
}

pub open spec fn references_within(refs: Seq<TypeReference>, nodes: Seq<CppType>) -> bool {
    forall|k: int| 0 <= k < refs.len() ==> resolved_within((#[trigger] refs[k]).resolved@, nodes)
}

pub open spec fn method_within(m: CppMethod, nodes: Seq<CppType>) -> bool {
    &&& resolved_within(m.return_type.resolved@, nodes)
    &&& forall|k: int|
        0 <= k < m.parameters.len() ==> resolved_within(
            (#[trigger] m.parameters[k]).ty.resolved@,
            nodes,
        )
}

/// Every reference in the body of `n` points at a node of `nodes` or is an
/// explicit placeholder.
pub open spec fn body_within(n: CppType, nodes: Seq<CppType>) -> bool {
    &&& n.handler matches Some(k) ==> has_tag(nodes, TagView::Grouped(k))
    &&& n.base matches Some(b) ==> resolved_within(b.resolved@, nodes)
    &&& references_within(n.interfaces@, nodes)
    &&& forall|k: int|
        0 <= k < n.fields.len() ==> resolved_within((#[trigger] n.fields[k]).ty.resolved@, nodes)
    &&& forall|k: int| 0 <= k < n.methods.len() ==> method_within(#[trigger] n.methods[k], nodes)
    &&& forall|k: int|
        0 <= k < n.properties.len() ==> resolved_within(
            (#[trigger] n.properties[k]).ty.resolved@,
            nodes,
        )
    &&& forall|k: int|
        0 <= k < n.method_specializations.len() ==> references_within(
            (#[trigger] n.method_specializations[k]).arguments@,
            nodes,
        )
}

/// A skeleton has no body yet.
pub open spec fn body_empty(n: CppType) -> bool {
    &&& n.base is None
    &&& n.interfaces.len() == 0
    &&& n.fields.len() == 0
    &&& n.methods.len() == 0
    &&& n.properties.len() == 0
    &&& n.method_specializations.len() == 0
    &&& n.size == 0
    &&& n.alignment == 0
}

/// Every node of `a` is still a node of `b`, under the same tag.
pub open spec fn tags_kept(a: Seq<CppType>, b: Seq<CppType>) -> bool {
    &&& a.len() <= b.len()
    &&& forall|i: int| 0 <= i < a.len() ==> (#[trigger] b[i]).self_tag@ == a[i].self_tag@
}

/// A body that is resolved in a registry stays resolved when the registry
/// keeps its tags.
pub proof fn lemma_body_within_kept(n: CppType, a: Seq<CppType>, b: Seq<CppType>)
    requires
        body_within(n, a),
        tags_kept(a, b),
    ensures
        body_within(n, b),
{
    assert forall|t: TagView| has_tag(a, t) implies has_tag(b, t) by {
        let i = choose|i: int| 0 <= i < a.len() && (#[trigger] a[i]).self_tag@ == t;
        assert(b[i].self_tag@ == t);
    }
    assert forall|k: int| 0 <= k < n.methods.len() implies method_within(
        #[trigger] n.methods[k],
        b,
    ) by {
        assert(method_within(n.methods[k], a));
    }
    assert forall|k: int| 0 <= k < n.method_specializations.len() implies references_within(
        (#[trigger] n.method_specializations[k]).arguments@,
        b,
    ) by {
        assert(references_within(n.method_specializations[k].arguments@, a));
    }
}

} // verus!
