//! What the declaration of a node needs to have been declared before it.
use crate::generate::context_collection::ContextCollection;
use crate::generate::cpp_type::{
    CppField, CppMethod, CppMethodSpecialization, CppParameter, CppProperty, CppType, ResolvedType,
    ResolvedView, TypeReference,
};
use crate::generate::type_tag::{TagView, TypeTag};
use vstd::prelude::*;

verus! {

/// A type that a declaration mentions. A strong need asks for the full
/// declaration of the type; for any other a forward declaration will do.
#[derive(Clone, Debug, PartialEq, Eq)]
pub struct Need {
    pub tag: TypeTag,
    pub strong: bool,
}

pub open spec fn need_views(v: Seq<Need>) -> Seq<(TagView, bool)> {
    v.map_values(|n: Need| (n.tag@, n.strong))
}

/// A reference needs the node it resolved to, if it resolved to one.
pub open spec fn reference_need(r: TypeReference, strong: bool) -> Seq<(TagView, bool)> {
    match r.resolved@ {
        ResolvedView::Node(t) => seq![(t, strong)],
        _ => Seq::empty(),
    }
}

pub open spec fn references_needs(refs: Seq<TypeReference>, strong: bool, upto: nat) -> Seq<
    (TagView, bool),
>
    decreases upto,
{
    if upto == 0 {
        Seq::empty()
    } else {
        references_needs(refs, strong, (upto - 1) as nat) + reference_need(refs[upto - 1], strong)
    }
}

/// The node under `t` is a value type.
pub open spec fn is_value_node(nodes: Seq<CppType>, t: TagView) -> bool {
    exists|i: int|
        0 <= i < nodes.len() && (#[trigger] nodes[i]).self_tag@ == t && nodes[i].is_value_type
}

/// An instance field of a value type is embedded by value and needs the full
/// declaration of its type; any other field needs its type by name only.
pub open spec fn field_need(f: CppField, nodes: Seq<CppType>) -> Seq<(TagView, bool)> {
    match f.ty.resolved@ {
        ResolvedView::Node(t) => seq![(t, !f.is_static && is_value_node(nodes, t))],
        _ => Seq::empty(),
    }
}

pub open spec fn fields_needs(fields: Seq<CppField>, nodes: Seq<CppType>, upto: nat) -> Seq<
    (TagView, bool),
>
    decreases upto,
{
    if upto == 0 {
        Seq::empty()
    } else {
        fields_needs(fields, nodes, (upto - 1) as nat) + field_need(fields[upto - 1], nodes)
    }
}

pub open spec fn parameters_needs(ps: Seq<CppParameter>, upto: nat) -> Seq<(TagView, bool)>
    decreases upto,
{
    if upto == 0 {
        Seq::empty()
    } else {
        parameters_needs(ps, (upto - 1) as nat) + reference_need(ps[upto - 1].ty, false)
    }
}

pub open spec fn method_needs(m: CppMethod) -> Seq<(TagView, bool)> {
    reference_need(m.return_type, false) + parameters_needs(m.parameters@, m.parameters.len() as nat)
}

pub open spec fn methods_needs(ms: Seq<CppMethod>, upto: nat) -> Seq<(TagView, bool)>
    decreases upto,
{
    if upto == 0 {
        Seq::empty()
    } else {
        methods_needs(ms, (upto - 1) as nat) + method_needs(ms[upto - 1])
    }
}

pub open spec fn properties_needs(ps: Seq<CppProperty>, upto: nat) -> Seq<(TagView, bool)>
    decreases upto,
{
    if upto == 0 {
        Seq::empty()
    } else {
        properties_needs(ps, (upto - 1) as nat) + reference_need(ps[upto - 1].ty, false)
    }
}

pub open spec fn specializations_needs(ss: Seq<CppMethodSpecialization>, upto: nat) -> Seq<
    (TagView, bool),
>
    decreases upto,
{
    if upto == 0 {
        Seq::empty()
    } else {
        specializations_needs(ss, (upto - 1) as nat) + references_needs(
            ss[upto - 1].arguments@,
            false,
            ss[upto - 1].arguments.len() as nat,
        )
    }
}

/// What a node needs by what it is: the hand-authored type of the handler
/// that claimed it, the type that encloses it, and the generic definition
/// that it instantiates.
pub open spec fn identity_needs(n: CppType) -> Seq<(TagView, bool)> {
    (match n.handler {
        Some(k) => seq![(TagView::Grouped(k), true)],
        None => Seq::empty(),
    }) + (match n.parent {
        Some(p) => seq![(p@, true)],
        None => Seq::empty(),
    }) + (match n.self_tag@ {
        TagView::GenericInstantiation { definition_index, .. } => seq![
            (TagView::DefinitionRef(definition_index), true),
        ],
        _ => Seq::empty(),
    })
}

/// Everything that the declaration of `n` mentions, in the order of its
/// parts: identity, base type, interfaces, fields, methods, properties and
/// method specialisations. Base type and interfaces are needed in full.
pub open spec fn needs_list(n: CppType, nodes: Seq<CppType>) -> Seq<(TagView, bool)> {
    identity_needs(n) + (match n.base {
        Some(b) => reference_need(b, true),
        None => Seq::empty(),
    }) + references_needs(n.interfaces@, true, n.interfaces.len() as nat) + fields_needs(
        n.fields@,
        nodes,
        n.fields.len() as nat,
    ) + methods_needs(n.methods@, n.methods.len() as nat) + properties_needs(
        n.properties@,
        n.properties.len() as nat,
    ) + specializations_needs(n.method_specializations@, n.method_specializations.len() as nat)
}

fn push_need(out: &mut Vec<Need>, tag: TypeTag, strong: bool)
    ensures
        need_views(final(out)@) == need_views(old(out)@) + seq![(tag@, strong)],
{
    out.push(Need { tag, strong });
    assert(need_views(out@) =~= need_views(old(out)@) + seq![(tag@, strong)]);
}

fn push_reference(out: &mut Vec<Need>, r: &TypeReference, strong: bool)
    ensures
        need_views(final(out)@) == need_views(old(out)@) + reference_need(*r, strong),
{
    match &r.resolved {
        ResolvedType::Node(t) => {
            push_need(out, t.duplicate(), strong);
        },
        _ => {
            assert(need_views(out@) + Seq::<(TagView, bool)>::empty() =~= need_views(out@));
        },
    }
}

fn push_references(out: &mut Vec<Need>, refs: &Vec<TypeReference>, strong: bool)
    ensures
        need_views(final(out)@) == need_views(old(out)@) + references_needs(
            refs@,
            strong,
            refs.len() as nat,
        ),
{
    let ghost start = need_views(out@);
    assert(start + Seq::<(TagView, bool)>::empty() =~= start);
    let mut k: usize = 0;
    while k < refs.len()
        invariant
            k <= refs.len(),
            need_views(out@) == start + references_needs(refs@, strong, k as nat),
        decreases refs.len() - k,
    {
        let ghost before = references_needs(refs@, strong, k as nat);
        push_reference(out, &refs[k], strong);
        assert((start + before) + reference_need(refs[k as int], strong) =~= start + (before
            + reference_need(refs[k as int], strong)));
        k += 1;
    }
}

fn push_parameters(out: &mut Vec<Need>, ps: &Vec<CppParameter>)
    ensures
        need_views(final(out)@) == need_views(old(out)@) + parameters_needs(ps@, ps.len() as nat),
{
    let ghost start = need_views(out@);
    assert(start + Seq::<(TagView, bool)>::empty() =~= start);
    let mut k: usize = 0;
    while k < ps.len()
        invariant
            k <= ps.len(),
            need_views(out@) == start + parameters_needs(ps@, k as nat),
        decreases ps.len() - k,
    {
        let ghost before = parameters_needs(ps@, k as nat);
        push_reference(out, &ps[k].ty, false);
        assert((start + before) + reference_need(ps[k as int].ty, false) =~= start + (before
            + reference_need(ps[k as int].ty, false)));
        k += 1;
    }
}

fn push_methods(out: &mut Vec<Need>, ms: &Vec<CppMethod>)
    ensures
        need_views(final(out)@) == need_views(old(out)@) + methods_needs(ms@, ms.len() as nat),
{
    let ghost start = need_views(out@);
    assert(start + Seq::<(TagView, bool)>::empty() =~= start);
    let mut k: usize = 0;
    while k < ms.len()
        invariant
            k <= ms.len(),
            need_views(out@) == start + methods_needs(ms@, k as nat),
        decreases ms.len() - k,
    {
        let ghost before = methods_needs(ms@, k as nat);
        let ghost m = ms[k as int];
        push_reference(out, &ms[k].return_type, false);
        push_parameters(out, &ms[k].parameters);
        assert(((start + before) + reference_need(m.return_type, false)) + parameters_needs(
            m.parameters@,
            m.parameters.len() as nat,
        ) =~= start + (before + method_needs(m)));
        k += 1;
    }
}

fn push_properties(out: &mut Vec<Need>, ps: &Vec<CppProperty>)
    ensures
        need_views(final(out)@) == need_views(old(out)@) + properties_needs(ps@, ps.len() as nat),
{
    let ghost start = need_views(out@);
    assert(start + Seq::<(TagView, bool)>::empty() =~= start);
    let mut k: usize = 0;
    while k < ps.len()
        invariant
            k <= ps.len(),
            need_views(out@) == start + properties_needs(ps@, k as nat),
        decreases ps.len() - k,
    {
        let ghost before = properties_needs(ps@, k as nat);
        push_reference(out, &ps[k].ty, false);
        assert((start + before) + reference_need(ps[k as int].ty, false) =~= start + (before
            + reference_need(ps[k as int].ty, false)));
        k += 1;
    }
}

fn push_specializations(out: &mut Vec<Need>, ss: &Vec<CppMethodSpecialization>)
    ensures
        need_views(final(out)@) == need_views(old(out)@) + specializations_needs(
            ss@,
            ss.len() as nat,
        ),
{
    let ghost start = need_views(out@);
    assert(start + Seq::<(TagView, bool)>::empty() =~= start);
    let mut k: usize = 0;
    while k < ss.len()
        invariant
            k <= ss.len(),
            need_views(out@) == start + specializations_needs(ss@, k as nat),
        decreases ss.len() - k,
    {
        let ghost before = specializations_needs(ss@, k as nat);
        let ghost added = references_needs(
            ss[k as int].arguments@,
            false,
            ss[k as int].arguments.len() as nat,
        );
        push_references(out, &ss[k].arguments, false);
        assert((start + before) + added =~= start + (before + added));
        k += 1;
    }
}

fn push_fields(out: &mut Vec<Need>, cc: &ContextCollection, fields: &Vec<CppField>)
    requires
        cc.wf(),
    ensures
        need_views(final(out)@) == need_views(old(out)@) + fields_needs(
            fields@,
            cc.nodes(),
            fields.len() as nat,
        ),
{
    let ghost start = need_views(out@);
    assert(start + Seq::<(TagView, bool)>::empty() =~= start);
    let mut k: usize = 0;
    while k < fields.len()
        invariant
            cc.wf(),
            k <= fields.len(),
            need_views(out@) == start + fields_needs(fields@, cc.nodes(), k as nat),
        decreases fields.len() - k,
    {
        let ghost before = fields_needs(fields@, cc.nodes(), k as nat);
        let f = &fields[k];
        match &f.ty.resolved {
            ResolvedType::Node(t) => {
                let by_value = match cc.find(t) {
                    Some(i) => {
                        proof {
                            if is_value_node(cc.nodes(), t@) {
                                let j = choose|j: int|
                                    0 <= j < cc.nodes().len() && (#[trigger] cc.nodes()[j]).self_tag@
                                        == t@ && cc.nodes()[j].is_value_type;
                                cc.lemma_one_node_per_tag(i as int, j);
                            }
                        }
                        cc.get(i).is_value_type
                    },
                    None => false,
                };
                push_need(out, t.duplicate(), !f.is_static && by_value);
            },
            _ => {},
        }
        assert((start + before) + field_need(fields[k as int], cc.nodes()) =~= start + (before
            + field_need(fields[k as int], cc.nodes())));
        k += 1;
    }
}

/// Everything that the declaration of the node behind `handle` mentions.
pub fn collect_needs(cc: &ContextCollection, handle: usize) -> (r: Vec<Need>)
    requires
        cc.wf(),
        handle < cc.nodes().len(),
    ensures
        need_views(r@) == needs_list(cc.nodes()[handle as int], cc.nodes()),
{
    let n = cc.get(handle);
    let mut out: Vec<Need> = Vec::new();
    let ghost e = Seq::<(TagView, bool)>::empty();
    assert(need_views(out@) =~= e);
    match n.handler {
        Some(k) => {
            push_need(&mut out, TypeTag::Grouped(k), true);
        },
        None => {},
    }
    let ghost with_handler = need_views(out@);
    match &n.parent {
        Some(p) => {
            push_need(&mut out, p.duplicate(), true);
        },
        None => {},
    }
    let ghost with_parent = need_views(out@);
    match &n.self_tag {
        TypeTag::GenericInstantiation { definition_index, .. } => {
            push_need(&mut out, TypeTag::DefinitionRef(*definition_index), true);
        },
        _ => {},
    }
    proof {
        assert(with_handler =~= e + with_handler);
        assert(with_parent + e =~= with_parent);
        assert(with_handler + e =~= with_handler);
        assert(need_views(out@) =~= identity_needs(*n));
    }
    let ghost with_identity = need_views(out@);
    match &n.base {
        Some(b) => {
            push_reference(&mut out, b, true);
        },
        None => {
            assert(with_identity + e =~= with_identity);
        },
    }
    push_references(&mut out, &n.interfaces, true);
    push_fields(&mut out, cc, &n.fields);
    push_methods(&mut out, &n.methods);
    push_properties(&mut out, &n.properties);
    push_specializations(&mut out, &n.method_specializations);
    out
}

} // verus!
