//! The text of one compilation unit, line by line: the includes, the forward
//! declarations and the definitions of its emission plan.
use crate::generate::config::{spec_namespace_path, spec_path_name};
use crate::generate::context_collection::{special_name, tag_in_range, ContextCollection};
use crate::generate::cpp_type::{
    has_tag, name_views, CppField, CppMethod, CppParameter, CppProperty, CppType, ResolvedType,
    ResolvedView, TypeReference,
};
use crate::generate::emit::names::{
    decimal, decimal_text, full_cpp_name, full_name, join, joined, node_of, scoped_cpp_name,
    scoped_name, type_cpp_text, type_text,
};
use crate::generate::emit::plan::{emission_plan, is_plan, EmissionPlan};
use crate::generate::metadata::Metadata;
use crate::generate::type_tag::{SpecialKind, TagView, TypeTag};
use vstd::prelude::*;

verus! {

/// The path of the header of the unit rooted at `root`, below the header
/// directory: the namespace as directories, the name as the file.
pub open spec fn unit_path(md: Metadata, root: TagView) -> Seq<char> {
    match root {
        TagView::Grouped(k) => special_name(k) + ".hpp"@,
        _ => {
            let def = md.definitions()[root.definition().unwrap() as int];
            if !tag_in_range(md, root) {
                Seq::empty()
            } else if def.namespace@.len() > 0 {
                spec_namespace_path(def.namespace@) + "/"@ + spec_path_name(def.name@) + ".hpp"@
            } else {
                spec_path_name(def.name@) + ".hpp"@
            }
        },
    }
}

/// The path of the header of the unit rooted at `root`; empty for a tag that
/// lies outside the tables.
pub fn unit_cpp_path(cc: &ContextCollection, root: &TypeTag) -> (r: String)
    ensures
        r@ == unit_path(cc.metadata(), root@),
{
    match root {
        TypeTag::Grouped(k) => {
            let mut out = String::from_str(
                match k {
                    SpecialKind::ObjectRoot => "ObjectWrapper",
                    SpecialKind::ValueTypeRoot => "ValueTypeWrapper",
                    SpecialKind::DelegateRoot => "DelegateWrapper",
                    SpecialKind::EnumRoot => "EnumWrapper",
                    SpecialKind::ArrayRoot => "ArrayWrapper",
                },
            );
            out.append(".hpp");
            out
        },
        _ => {
            if !cc.tag_is_valid(root) {
                return String::new();
            }
            let d = match root.definition_index() {
                Some(d) => d,
                None => {
                    return String::new();
                },
            };
            let def = cc.get_metadata().type_definition(d);
            let config = cc.get_config();
            if !def.namespace.as_str().is_empty() {
                let mut out = config.namespace_path(def.namespace.clone());
                out.append("/");
                out.append(config.path_name(def.name.clone()).as_str());
                out.append(".hpp");
                out
            } else {
                let mut out = config.path_name(def.name.clone());
                out.append(".hpp");
                out
            }
        },
    }
}

/// The directive that brings in the unit of node `n`.
pub open spec fn include_line(n: CppType, md: Metadata) -> Seq<char> {
    "#include \""@ + unit_path(md, n.context_root@) + "\""@
}

/// The forward declaration of node `n`.
pub open spec fn forward_line(n: CppType) -> Seq<char> {
    "struct "@ + scoped_name(n) + ";"@
}

/// The names of the interfaces that have a node, in order.
pub open spec fn interface_names(
    refs: Seq<TypeReference>,
    md: Metadata,
    nodes: Seq<CppType>,
    upto: nat,
) -> Seq<Seq<char>>
    decreases upto,
{
    if upto == 0 {
        Seq::empty()
    } else {
        let rest = interface_names(refs, md, nodes, (upto - 1) as nat);
        match refs[upto - 1].resolved@ {
            ResolvedView::Node(t) => if has_tag(nodes, t) {
                rest.push(full_name(node_of(nodes, t), md))
            } else {
                rest
            },
            _ => rest,
        }
    }
}

/// What a node derives from: the hand-authored type of its handler or else
/// its base type, then its interfaces.
pub open spec fn base_names(n: CppType, md: Metadata, nodes: Seq<CppType>) -> Seq<Seq<char>> {
    (match n.handler {
        Some(k) => seq![special_name(k)],
        None => match n.base {
            Some(b) => match b.resolved@ {
                ResolvedView::Node(t) => if has_tag(nodes, t) {
                    seq![full_name(node_of(nodes, t), md)]
                } else {
                    Seq::empty()
                },
                _ => Seq::empty(),
            },
            None => Seq::empty(),
        },
    }) + interface_names(n.interfaces@, md, nodes, n.interfaces.len() as nat)
}

/// The line that opens the definition of `n`.
pub open spec fn header_line(n: CppType, md: Metadata, nodes: Seq<CppType>) -> Seq<char> {
    let bases = base_names(n, md, nodes);
    if bases.len() == 0 {
        "struct "@ + full_name(n, md) + " {"@
    } else {
        "struct "@ + full_name(n, md) + " : "@ + joined(bases, ", "@, bases.len()) + " {"@
    }
}

/// The line that states what an instance takes.
pub open spec fn size_line(n: CppType) -> Seq<char> {
    "    // size "@ + decimal_text(n.size as nat) + ", alignment "@ + decimal_text(
        n.alignment as nat,
    )
}

/// The line of a comment, where there is one.
pub open spec fn comment_lines(c: Option<String>) -> Seq<Seq<char>> {
    match c {
        Some(text) => seq!["    // "@ + text@],
        None => Seq::empty(),
    }
}

/// The declaration of a field, with the offset and the size of an instance
/// field behind it.
pub open spec fn field_line(f: CppField, md: Metadata, nodes: Seq<CppType>) -> Seq<char> {
    if f.is_static {
        "    static "@ + type_text(f.ty.resolved@, md, nodes) + " "@ + f.name@ + ";"@
    } else {
        "    "@ + type_text(f.ty.resolved@, md, nodes) + " "@ + f.name@ + "; // offset "@
            + decimal_text(f.offset as nat) + ", size "@ + decimal_text(f.size as nat)
    }
}

pub open spec fn fields_lines(fields: Seq<CppField>, md: Metadata, nodes: Seq<CppType>, upto: nat) -> Seq<
    Seq<char>,
>
    decreases upto,
{
    if upto == 0 {
        Seq::empty()
    } else {
        fields_lines(fields, md, nodes, (upto - 1) as nat) + comment_lines(
            fields[upto - 1].brief_comment,
        ) + seq![field_line(fields[upto - 1], md, nodes)]
    }
}

/// A parameter as it stands in a declaration, with its default value.
pub open spec fn parameter_text(p: CppParameter, md: Metadata, nodes: Seq<CppType>) -> Seq<char> {
    match p.def_value {
        Some(v) => type_text(p.ty.resolved@, md, nodes) + " "@ + p.name@ + " = "@ + v@,
        None => type_text(p.ty.resolved@, md, nodes) + " "@ + p.name@,
    }
}

pub open spec fn parameter_texts(
    ps: Seq<CppParameter>,
    md: Metadata,
    nodes: Seq<CppType>,
    upto: nat,
) -> Seq<Seq<char>>
    decreases upto,
{
    if upto == 0 {
        Seq::empty()
    } else {
        parameter_texts(ps, md, nodes, (upto - 1) as nat).push(
            parameter_text(ps[upto - 1], md, nodes),
        )
    }
}

/// The declaration of a method.
pub open spec fn method_line(m: CppMethod, md: Metadata, nodes: Seq<CppType>) -> Seq<char> {
    (if m.is_static {
        "    static "@
    } else {
        "    "@
    }) + type_text(m.return_type.resolved@, md, nodes) + " "@ + m.name@ + "("@ + joined(
        parameter_texts(m.parameters@, md, nodes, m.parameters.len() as nat),
        ", "@,
        m.parameters.len() as nat,
    ) + ");"@
}

pub open spec fn methods_lines(ms: Seq<CppMethod>, md: Metadata, nodes: Seq<CppType>, upto: nat) -> Seq<
    Seq<char>,
>
    decreases upto,
{
    if upto == 0 {
        Seq::empty()
    } else {
        methods_lines(ms, md, nodes, (upto - 1) as nat) + comment_lines(ms[upto - 1].brief_comment)
            + seq![method_line(ms[upto - 1], md, nodes)]
    }
}

/// The note that a property leaves in the definition.
pub open spec fn property_line(p: CppProperty, md: Metadata, nodes: Seq<CppType>) -> Seq<char> {
    "    // property "@ + type_text(p.ty.resolved@, md, nodes) + " "@ + p.name@
}

pub open spec fn properties_lines(
    ps: Seq<CppProperty>,
    md: Metadata,
    nodes: Seq<CppType>,
    upto: nat,
) -> Seq<Seq<char>>
    decreases upto,
{
    if upto == 0 {
        Seq::empty()
    } else {
        properties_lines(ps, md, nodes, (upto - 1) as nat).push(
            property_line(ps[upto - 1], md, nodes),
        )
    }
}

/// The lines of the definition of `n`: the opening line, the size, the
/// fields, the methods, the properties and the closing line.
pub open spec fn definition_lines(n: CppType, md: Metadata, nodes: Seq<CppType>) -> Seq<Seq<char>> {
    seq![header_line(n, md, nodes), size_line(n)] + fields_lines(
        n.fields@,
        md,
        nodes,
        n.fields.len() as nat,
    ) + methods_lines(n.methods@, md, nodes, n.methods.len() as nat) + properties_lines(
        n.properties@,
        md,
        nodes,
        n.properties.len() as nat,
    ) + seq!["};"@]
}

pub open spec fn includes_lines(list: Seq<usize>, md: Metadata, nodes: Seq<CppType>, upto: nat) -> Seq<
    Seq<char>,
>
    decreases upto,
{
    if upto == 0 {
        Seq::empty()
    } else {
        includes_lines(list, md, nodes, (upto - 1) as nat).push(
            include_line(nodes[list[upto - 1] as int], md),
        )
    }
}

pub open spec fn forwards_lines(list: Seq<usize>, nodes: Seq<CppType>, upto: nat) -> Seq<Seq<char>>
    decreases upto,
{
    if upto == 0 {
        Seq::empty()
    } else {
        forwards_lines(list, nodes, (upto - 1) as nat).push(forward_line(nodes[list[upto - 1] as int]))
    }
}

pub open spec fn definitions_lines(
    list: Seq<usize>,
    md: Metadata,
    nodes: Seq<CppType>,
    upto: nat,
) -> Seq<Seq<char>>
    decreases upto,
{
    if upto == 0 {
        Seq::empty()
    } else {
        definitions_lines(list, md, nodes, (upto - 1) as nat) + definition_lines(
            nodes[list[upto - 1] as int],
            md,
            nodes,
        )
    }
}

/// The lines of the unit that `plan` describes: the guard, then the
/// includes, the forward declarations and the definitions in the order of
/// the plan.
pub open spec fn unit_lines(plan: EmissionPlan, md: Metadata, nodes: Seq<CppType>) -> Seq<Seq<char>> {
    seq!["#pragma once"@] + includes_lines(plan.includes@, md, nodes, plan.includes.len() as nat)
        + forwards_lines(plan.forward_declarations@, nodes, plan.forward_declarations.len() as nat)
        + definitions_lines(plan.definitions@, md, nodes, plan.definitions.len() as nat)
}

/// Every entry of the plan is the handle of a node.
pub open spec fn plan_in_range(plan: EmissionPlan, nodes: Seq<CppType>) -> bool {
    &&& forall|k: int| 0 <= k < plan.includes.len() ==> (#[trigger] plan.includes[k]) < nodes.len()
    &&& forall|k: int|
        0 <= k < plan.forward_declarations.len() ==> (#[trigger] plan.forward_declarations[k])
            < nodes.len()
    &&& forall|k: int|
        0 <= k < plan.definitions.len() ==> (#[trigger] plan.definitions[k]) < nodes.len()
}

fn push_line(lines: &mut Vec<String>, line: String)
    ensures
        final(lines).len() == old(lines).len() + 1,
        name_views(final(lines)@) == name_views(old(lines)@).push(line@),
{
    lines.push(line);
    assert(name_views(lines@) =~= name_views(old(lines)@).push(line@));
}

fn push_comment(lines: &mut Vec<String>, c: &Option<String>)
    ensures
        name_views(final(lines)@) == name_views(old(lines)@) + comment_lines(*c),
{
    match c {
        Some(text) => {
            let mut line = String::from_str("    // ");
            line.append(text.as_str());
            push_line(lines, line);
            assert(name_views(old(lines)@).push(line@) =~= name_views(old(lines)@) + seq![line@]);
        },
        None => {
            assert(name_views(lines@) + Seq::<Seq<char>>::empty() =~= name_views(lines@));
        },
    }
}

fn name_of_node(cc: &ContextCollection, r: &ResolvedType) -> (out: Option<String>)
    requires
        cc.wf(),
    ensures
        match r@ {
            ResolvedView::Node(t) => if has_tag(cc.nodes(), t) {
                out matches Some(s) && s@ == full_name(node_of(cc.nodes(), t), cc.metadata())
            } else {
                out is None
            },
            _ => out is None,
        },
{
    match r {
        ResolvedType::Node(t) => match cc.find(t) {
            Some(i) => {
                proof {
                    let c = choose|c: int|
                        0 <= c < cc.nodes().len() && (#[trigger] cc.nodes()[c]).self_tag@ == t@;
                    cc.lemma_one_node_per_tag(c, i as int);
                }
                Some(full_cpp_name(cc, i))
            },
            None => None,
        },
        _ => None,
    }
}

fn base_cpp_names(cc: &ContextCollection, n: &CppType) -> (r: Vec<String>)
    requires
        cc.wf(),
    ensures
        name_views(r@) == base_names(*n, cc.metadata(), cc.nodes()),
{
    let ghost md = cc.metadata();
    let ghost nodes = cc.nodes();
    let mut out: Vec<String> = Vec::new();
    assert(name_views(out@) =~= Seq::<Seq<char>>::empty());
    match n.handler {
        Some(k) => {
            let name = match k {
                SpecialKind::ObjectRoot => String::from_str("ObjectWrapper"),
                SpecialKind::ValueTypeRoot => String::from_str("ValueTypeWrapper"),
                SpecialKind::DelegateRoot => String::from_str("DelegateWrapper"),
                SpecialKind::EnumRoot => String::from_str("EnumWrapper"),
                SpecialKind::ArrayRoot => String::from_str("ArrayWrapper"),
            };
            push_line(&mut out, name);
            assert(name_views(out@) =~= seq![special_name(k)]);
        },
        None => match &n.base {
            Some(b) => match name_of_node(cc, &b.resolved) {
                Some(name) => {
                    push_line(&mut out, name);
                    assert(name_views(out@) =~= seq![name@]);
                },
                None => {},
            },
            None => {},
        },
    }
    let ghost start = name_views(out@);
    assert(start + interface_names(n.interfaces@, md, nodes, 0) =~= start);
    let mut k: usize = 0;
    while k < n.interfaces.len()
        invariant
            cc.wf(),
            md == cc.metadata(),
            nodes == cc.nodes(),
            k <= n.interfaces.len(),
            name_views(out@) == start + interface_names(n.interfaces@, md, nodes, k as nat),
        decreases n.interfaces.len() - k,
    {
        let ghost before = interface_names(n.interfaces@, md, nodes, k as nat);
        match name_of_node(cc, &n.interfaces[k].resolved) {
            Some(name) => {
                push_line(&mut out, name);
                assert((start + before).push(name@) =~= start + before.push(name@));
            },
            None => {},
        }
        k += 1;
    }
    out
}

fn header_cpp_line(cc: &ContextCollection, handle: usize) -> (r: String)
    requires
        cc.wf(),
        handle < cc.nodes().len(),
    ensures
        r@ == header_line(cc.nodes()[handle as int], cc.metadata(), cc.nodes()),
{
    let n = cc.get(handle);
    let bases = base_cpp_names(cc, n);
    let mut out = String::from_str("struct ");
    out.append(full_cpp_name(cc, handle).as_str());
    if bases.len() > 0 {
        out.append(" : ");
        out.append(join(&bases, ", ").as_str());
    }
    out.append(" {");
    out
}

fn size_cpp_line(n: &CppType) -> (r: String)
    ensures
        r@ == size_line(*n),
{
    let mut out = String::from_str("    // size ");
    out.append(decimal(n.size).as_str());
    out.append(", alignment ");
    out.append(decimal(n.alignment as u32).as_str());
    out
}

fn field_cpp_line(cc: &ContextCollection, f: &CppField) -> (r: String)
    requires
        cc.wf(),
    ensures
        r@ == field_line(*f, cc.metadata(), cc.nodes()),
{
    let ty = type_cpp_text(cc, &f.ty.resolved);
    if f.is_static {
        let mut out = String::from_str("    static ");
        out.append(ty.as_str());
        out.append(" ");
        out.append(f.name.as_str());
        out.append(";");
        out
    } else {
        let mut out = String::from_str("    ");
        out.append(ty.as_str());
        out.append(" ");
        out.append(f.name.as_str());
        out.append("; // offset ");
        out.append(decimal(f.offset).as_str());
        out.append(", size ");
        out.append(decimal(f.size).as_str());
        out
    }
}

fn parameter_cpp_text(cc: &ContextCollection, p: &CppParameter) -> (r: String)
    requires
        cc.wf(),
    ensures
        r@ == parameter_text(*p, cc.metadata(), cc.nodes()),
{
    let mut out = type_cpp_text(cc, &p.ty.resolved);
    out.append(" ");
    out.append(p.name.as_str());
    match &p.def_value {
        Some(v) => {
            out.append(" = ");
            out.append(v.as_str());
        },
        None => {},
    }
    out
}

fn method_cpp_line(cc: &ContextCollection, m: &CppMethod) -> (r: String)
    requires
        cc.wf(),
    ensures
        r@ == method_line(*m, cc.metadata(), cc.nodes()),
{
    let ghost md = cc.metadata();
    let ghost nodes = cc.nodes();
    let mut texts: Vec<String> = Vec::new();
    assert(name_views(texts@) =~= parameter_texts(m.parameters@, md, nodes, 0));
    let mut k: usize = 0;
    while k < m.parameters.len()
        invariant
            cc.wf(),
            md == cc.metadata(),
            nodes == cc.nodes(),
            k <= m.parameters.len(),
            texts.len() == k,
            name_views(texts@) == parameter_texts(m.parameters@, md, nodes, k as nat),
        decreases m.parameters.len() - k,
    {
        let text = parameter_cpp_text(cc, &m.parameters[k]);
        push_line(&mut texts, text);
        k += 1;
    }
    let mut out = if m.is_static {
        String::from_str("    static ")
    } else {
        String::from_str("    ")
    };
    out.append(type_cpp_text(cc, &m.return_type.resolved).as_str());
    out.append(" ");
    out.append(m.name.as_str());
    out.append("(");
    out.append(join(&texts, ", ").as_str());
    out.append(");");
    out
}

fn property_cpp_line(cc: &ContextCollection, p: &CppProperty) -> (r: String)
    requires
        cc.wf(),
    ensures
        r@ == property_line(*p, cc.metadata(), cc.nodes()),
{
    let mut out = String::from_str("    // property ");
    out.append(type_cpp_text(cc, &p.ty.resolved).as_str());
    out.append(" ");
    out.append(p.name.as_str());
    out
}

/// Appends the lines of the definition of the node behind `handle`.
fn push_definition(cc: &ContextCollection, lines: &mut Vec<String>, handle: usize)
    requires
        cc.wf(),
        handle < cc.nodes().len(),
    ensures
        name_views(final(lines)@) == name_views(old(lines)@) + definition_lines(
            cc.nodes()[handle as int],
            cc.metadata(),
            cc.nodes(),
        ),
{
    let ghost md = cc.metadata();
    let ghost nodes = cc.nodes();
    let ghost start = name_views(lines@);
    let n = cc.get(handle);
    let header = header_cpp_line(cc, handle);
    push_line(lines, header);
    let size = size_cpp_line(n);
    push_line(lines, size);
    let ghost head = seq![header_line(*n, md, nodes), size_line(*n)];
    assert(name_views(lines@) =~= start + head);
    let ghost s1 = start + head;
    assert(s1 + fields_lines(n.fields@, md, nodes, 0) =~= s1);
    let mut k: usize = 0;
    while k < n.fields.len()
        invariant
            cc.wf(),
            md == cc.metadata(),
            nodes == cc.nodes(),
            k <= n.fields.len(),
            name_views(lines@) == s1 + fields_lines(n.fields@, md, nodes, k as nat),
        decreases n.fields.len() - k,
    {
        let ghost before = fields_lines(n.fields@, md, nodes, k as nat);
        let f = &n.fields[k];
        push_comment(lines, &f.brief_comment);
        let line = field_cpp_line(cc, f);
        push_line(lines, line);
        assert(((s1 + before) + comment_lines(f.brief_comment)).push(line@) =~= s1 + (before
            + comment_lines(f.brief_comment) + seq![line@]));
        k += 1;
    }
    let ghost s2 = name_views(lines@);
    assert(s2 + methods_lines(n.methods@, md, nodes, 0) =~= s2);
    k = 0;
    while k < n.methods.len()
        invariant
            cc.wf(),
            md == cc.metadata(),
            nodes == cc.nodes(),
            k <= n.methods.len(),
            name_views(lines@) == s2 + methods_lines(n.methods@, md, nodes, k as nat),
        decreases n.methods.len() - k,
    {
        let ghost before = methods_lines(n.methods@, md, nodes, k as nat);
        let m = &n.methods[k];
        push_comment(lines, &m.brief_comment);
        let line = method_cpp_line(cc, m);
        push_line(lines, line);
        assert(((s2 + before) + comment_lines(m.brief_comment)).push(line@) =~= s2 + (before
            + comment_lines(m.brief_comment) + seq![line@]));
        k += 1;
    }
    let ghost s3 = name_views(lines@);
    assert(s3 + properties_lines(n.properties@, md, nodes, 0) =~= s3);
    k = 0;
    while k < n.properties.len()
        invariant
            cc.wf(),
            md == cc.metadata(),
            nodes == cc.nodes(),
            k <= n.properties.len(),
            name_views(lines@) == s3 + properties_lines(n.properties@, md, nodes, k as nat),
        decreases n.properties.len() - k,
    {
        let ghost before = properties_lines(n.properties@, md, nodes, k as nat);
        let line = property_cpp_line(cc, &n.properties[k]);
        push_line(lines, line);
        assert((s3 + before).push(line@) =~= s3 + before.push(line@));
        k += 1;
    }
    let ghost s4 = name_views(lines@);
    push_line(lines, String::from_str("};"));
    proof {
        let fl = fields_lines(n.fields@, md, nodes, n.fields.len() as nat);
        let ml = methods_lines(n.methods@, md, nodes, n.methods.len() as nat);
        let pl = properties_lines(n.properties@, md, nodes, n.properties.len() as nat);
        assert(s4.push("};"@) =~= start + (head + fl + ml + pl + seq!["};"@]));
    }
}

/// The text of the unit that `plan` describes, line by line.
pub fn render_unit(cc: &ContextCollection, plan: &EmissionPlan) -> (lines: Vec<String>)
    requires
        cc.wf(),
        plan_in_range(*plan, cc.nodes()),
    ensures
        name_views(lines@) == unit_lines(*plan, cc.metadata(), cc.nodes()),
{
    let ghost md = cc.metadata();
    let ghost nodes = cc.nodes();
    let mut lines: Vec<String> = Vec::new();
    push_line(&mut lines, String::from_str("#pragma once"));
    let ghost s0 = name_views(lines@);
    assert(s0 =~= seq!["#pragma once"@]);
    assert(s0 + includes_lines(plan.includes@, md, nodes, 0) =~= s0);
    let mut k: usize = 0;
    while k < plan.includes.len()
        invariant
            cc.wf(),
            md == cc.metadata(),
            nodes == cc.nodes(),
            plan_in_range(*plan, nodes),
            k <= plan.includes.len(),
            name_views(lines@) == s0 + includes_lines(plan.includes@, md, nodes, k as nat),
        decreases plan.includes.len() - k,
    {
        let ghost before = includes_lines(plan.includes@, md, nodes, k as nat);
        let n = cc.get(plan.includes[k]);
        let mut line = String::from_str("#include \"");
        line.append(unit_cpp_path(cc, &n.context_root).as_str());
        line.append("\"");
        push_line(&mut lines, line);
        assert((s0 + before).push(line@) =~= s0 + before.push(line@));
        k += 1;
    }
    let ghost s1 = name_views(lines@);
    assert(s1 + forwards_lines(plan.forward_declarations@, nodes, 0) =~= s1);
    k = 0;
    while k < plan.forward_declarations.len()
        invariant
            cc.wf(),
            md == cc.metadata(),
            nodes == cc.nodes(),
            plan_in_range(*plan, nodes),
            k <= plan.forward_declarations.len(),
            name_views(lines@) == s1 + forwards_lines(plan.forward_declarations@, nodes, k as nat),
        decreases plan.forward_declarations.len() - k,
    {
        let ghost before = forwards_lines(plan.forward_declarations@, nodes, k as nat);
        let n = cc.get(plan.forward_declarations[k]);
        let mut line = String::from_str("struct ");
        line.append(scoped_cpp_name(n).as_str());
        line.append(";");
        push_line(&mut lines, line);
        assert((s1 + before).push(line@) =~= s1 + before.push(line@));
        k += 1;
    }
    let ghost s2 = name_views(lines@);
    assert(s2 + definitions_lines(plan.definitions@, md, nodes, 0) =~= s2);
    k = 0;
    while k < plan.definitions.len()
        invariant
            cc.wf(),
            md == cc.metadata(),
            nodes == cc.nodes(),
            plan_in_range(*plan, nodes),
            k <= plan.definitions.len(),
            name_views(lines@) == s2 + definitions_lines(plan.definitions@, md, nodes, k as nat),
        decreases plan.definitions.len() - k,
    {
        let ghost before = definitions_lines(plan.definitions@, md, nodes, k as nat);
        let ghost added = definition_lines(nodes[plan.definitions[k as int] as int], md, nodes);
        push_definition(cc, &mut lines, plan.definitions[k]);
        assert((s2 + before) + added =~= s2 + (before + added));
        k += 1;
    }
    lines
}

/// The text of the unit rooted at `root`, line by line: its emission plan,
/// rendered.
pub fn write_unit(cc: &ContextCollection, root: &TypeTag) -> (lines: Vec<String>)
    requires
        cc.wf(),
    ensures
        exists|plan: EmissionPlan|
            #[trigger] is_plan(plan, cc.nodes(), root@) && name_views(lines@) == unit_lines(
                plan,
                cc.metadata(),
                cc.nodes(),
            ),
{
    let plan = emission_plan(cc, root);
    let count = cc.len();
    proof {
        crate::generate::emit::laws::lemma_plan_keeps_blacklist(
            plan,
            cc.metadata(),
            cc.nodes(),
            root@,
        );
    }
    render_unit(cc, &plan)
}

} // verus!
