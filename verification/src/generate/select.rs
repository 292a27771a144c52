//! Selection: picking nodes by what they are, for runs that emit a chosen
//! few units, and gathering the nodes of a namespace for its umbrella header.
use crate::generate::context_collection::ContextCollection;
use crate::generate::cpp_type::{name_views, CppMethod, CppType};
use crate::generate::emit::names::scoped_cpp_name;
use crate::generate::emit::plan::selected;
use crate::generate::emit::render::forward_line;
use crate::generate::metadata::Metadata;
use vstd::prelude::*;

verus! {

/// What a node is asked to be.
#[derive(Clone, Debug, PartialEq, Eq)]
pub enum NodeQuery {
    /// A generic definition, with template parameters of its own.
    GenericTemplate,
    /// A generic instantiation whose emitted name is the given one.
    GenericInstanceNamed(String),
    /// An enumeration.
    EnumType,
    /// A value type made from the definition of the given namespace and
    /// name.
    ValueTypeNamed { namespace: String, name: String },
    /// A node made from the definition of the given namespace and name.
    Named { namespace: String, name: String },
    /// A node made from a definition of the given name, in any namespace.
    Name(String),
    /// A node with a method that has a parameter with a default value.
    DefaultParameter,
}

/// The definition behind `n` has the given name and, where one is asked
/// for, the given namespace.
pub open spec fn is_made_from(
    n: CppType,
    md: Metadata,
    namespace: Option<Seq<char>>,
    name: Seq<char>,
) -> bool {
    &&& n.definition matches Some(d)
    &&& d < md.definitions().len()
    &&& md.definitions()[d as int].name@ == name
    &&& (namespace matches Some(ns) ==> md.definitions()[d as int].namespace@ == ns)
}

pub open spec fn has_default_parameter(m: CppMethod) -> bool {
    exists|k: int| 0 <= k < m.parameters.len() && (#[trigger] m.parameters[k]).def_value is Some
}

pub open spec fn query_matches(n: CppType, md: Metadata, q: NodeQuery) -> bool {
    match q {
        NodeQuery::GenericTemplate => n.template_parameters.len() > 0,
        NodeQuery::GenericInstanceNamed(name) => n.generic_arguments is Some && n.name@ == name@,
        NodeQuery::EnumType => n.is_enum_type,
        NodeQuery::ValueTypeNamed { namespace, name } => n.is_value_type && is_made_from(
            n,
            md,
            Some(namespace@),
            name@,
        ),
        NodeQuery::Named { namespace, name } => is_made_from(n, md, Some(namespace@), name@),
        NodeQuery::Name(name) => is_made_from(n, md, None, name@),
        NodeQuery::DefaultParameter => exists|k: int|
            0 <= k < n.methods.len() && has_default_parameter(#[trigger] n.methods[k]),
    }
}

/// A longer run of handles begins with the selection of a shorter one.
pub proof fn lemma_selected_prefix(p: spec_fn(int) -> bool, a: nat, b: nat)
    requires
        a <= b,
    ensures
        selected(p, a).len() <= selected(p, b).len(),
        forall|i: int| 0 <= i < selected(p, a).len() ==> selected(p, b)[i] == selected(p, a)[i],
    decreases b,
{
    if a < b {
        lemma_selected_prefix(p, a, (b - 1) as nat);
    }
}

fn made_from(cc: &ContextCollection, n: &CppType, namespace: Option<&String>, name: &String) -> (r:
    bool)
    ensures
        r == is_made_from(
            *n,
            cc.metadata(),
            match namespace {
                Some(ns) => Some(ns@),
                None => None,
            },
            name@,
        ),
{
    match n.definition {
        Some(d) => {
            if (d as usize) < cc.get_metadata().type_definition_count() {
                let def = cc.get_metadata().type_definition(d);
                let same_namespace = match namespace {
                    Some(ns) => def.namespace == *ns,
                    None => true,
                };
                def.name == *name && same_namespace
            } else {
                false
            }
        },
        None => false,
    }
}

fn method_has_default(m: &CppMethod) -> (r: bool)
    ensures
        r == has_default_parameter(*m),
{
    let mut k: usize = 0;
    while k < m.parameters.len()
        invariant
            k <= m.parameters.len(),
            forall|j: int| 0 <= j < k ==> (#[trigger] m.parameters[j]).def_value is None,
        decreases m.parameters.len() - k,
    {
        if m.parameters[k].def_value.is_some() {
            return true;
        }
        k += 1;
    }
    false
}

/// Whether the node behind `handle` is what `query` asks for.
#[verifier::loop_isolation(false)]
pub fn node_matches(cc: &ContextCollection, handle: usize, query: &NodeQuery) -> (r: bool)
    requires
        handle < cc.nodes().len(),
    ensures
        r == query_matches(cc.nodes()[handle as int], cc.metadata(), *query),
{
    let n = cc.get(handle);
    match query {
        NodeQuery::GenericTemplate => n.template_parameters.len() > 0,
        NodeQuery::GenericInstanceNamed(name) => n.generic_arguments.is_some() && n.name == *name,
        NodeQuery::EnumType => n.is_enum_type,
        NodeQuery::ValueTypeNamed { namespace, name } => n.is_value_type && made_from(
            cc,
            n,
            Some(namespace),
            name,
        ),
        NodeQuery::Named { namespace, name } => made_from(cc, n, Some(namespace), name),
        NodeQuery::Name(name) => made_from(cc, n, None, name),
        NodeQuery::DefaultParameter => {
            let mut k: usize = 0;
            while k < n.methods.len()
                invariant
                    k <= n.methods.len(),
                    forall|j: int| 0 <= j < k ==> !has_default_parameter(#[trigger] n.methods[j]),
                decreases n.methods.len() - k,
            {
                if method_has_default(&n.methods[k]) {
                    return true;
                }
                k += 1;
            }
            false
        },
    }
}

/// The handles of the nodes that are what `query` asks for, ascending.
pub open spec fn matching(nodes: Seq<CppType>, md: Metadata, q: NodeQuery) -> Seq<usize> {
    selected(|j: int| query_matches(nodes[j], md, q), nodes.len())
}

/// The handle of the node that is what `query` asks for and has `skip` such
/// nodes before it in the registry; `None` where there are not that many.
pub fn nth_match(cc: &ContextCollection, query: &NodeQuery, skip: usize) -> (r: Option<usize>)
    ensures
        r == (if skip < matching(cc.nodes(), cc.metadata(), *query).len() {
            Some(matching(cc.nodes(), cc.metadata(), *query)[skip as int])
        } else {
            None
        }),
{
    let ghost nodes = cc.nodes();
    let ghost md = cc.metadata();
    let ghost p = |j: int| query_matches(nodes[j], md, *query);
    let n = cc.len();
    let mut seen: usize = 0;
    let mut j: usize = 0;
    while j < n
        invariant
            n == nodes.len(),
            nodes == cc.nodes(),
            md == cc.metadata(),
            p == (|j: int| query_matches(nodes[j], md, *query)),
            j <= n,
            seen == selected(p, j as nat).len(),
            seen <= skip,
            seen <= j,
        decreases n - j,
    {
        if node_matches(cc, j, query) {
            assert(p(j as int));
            if seen == skip {
                proof {
                    lemma_selected_prefix(p, (j + 1) as nat, n as nat);
                    assert(selected(p, (j + 1) as nat)[skip as int] == j);
                }
                return Some(j);
            }
            seen += 1;
        } else {
            assert(!p(j as int));
        }
        j += 1;
    }
    None
}

/// The handles of the nodes of the namespace `namespace`, ascending.
pub fn namespace_members(cc: &ContextCollection, namespace: &str) -> (r: Vec<usize>)
    ensures
        r@ == selected(|j: int| cc.nodes()[j].namespace@ == namespace@, cc.nodes().len()),
{
    let ghost nodes = cc.nodes();
    let ghost p = |j: int| nodes[j].namespace@ == namespace@;
    let wanted = namespace.to_owned();
    let n = cc.len();
    let mut out: Vec<usize> = Vec::new();
    let mut j: usize = 0;
    while j < n
        invariant
            n == nodes.len(),
            nodes == cc.nodes(),
            p == (|j: int| nodes[j].namespace@ == namespace@),
            wanted@ == namespace@,
            j <= n,
            out@ == selected(p, j as nat),
        decreases n - j,
    {
        if cc.get(j).namespace == wanted {
            assert(p(j as int));
            out.push(j);
        } else {
            assert(!p(j as int));
        }
        j += 1;
    }
    out
}

/// Node `j` is the first of its namespace.
pub open spec fn opens_namespace(nodes: Seq<CppType>, j: int) -> bool {
    forall|i: int| 0 <= i < j ==> (#[trigger] nodes[i]).namespace@ != nodes[j].namespace@
}

/// The handles of the nodes that are the first of their namespace, ascending:
/// one for each namespace that has a node.
pub fn namespace_heads(cc: &ContextCollection) -> (r: Vec<usize>)
    ensures
        r@ == selected(|j: int| opens_namespace(cc.nodes(), j), cc.nodes().len()),
{
    let ghost nodes = cc.nodes();
    let ghost p = |j: int| opens_namespace(nodes, j);
    let n = cc.len();
    let mut out: Vec<usize> = Vec::new();
    let mut j: usize = 0;
    while j < n
        invariant
            n == nodes.len(),
            nodes == cc.nodes(),
            p == (|j: int| opens_namespace(nodes, j)),
            j <= n,
            out@ == selected(p, j as nat),
        decreases n - j,
    {
        let mut first = true;
        let mut i: usize = 0;
        while i < j
            invariant
                n == nodes.len(),
                nodes == cc.nodes(),
                j < n,
                i <= j,
                first == (forall|a: int|
                    0 <= a < i ==> (#[trigger] nodes[a]).namespace@ != nodes[j as int].namespace@),
            decreases j - i,
        {
            if cc.get(i).namespace == cc.get(j).namespace {
                first = false;
            }
            i += 1;
        }
        if first {
            assert(p(j as int));
            out.push(j);
        } else {
            assert(!p(j as int));
        }
        j += 1;
    }
    out
}

/// Node `j` is the first of its compilation unit.
pub open spec fn opens_context(nodes: Seq<CppType>, j: int) -> bool {
    forall|i: int| 0 <= i < j ==> (#[trigger] nodes[i]).context_root@ != nodes[j].context_root@
}

/// The handles of the nodes that are the first of their compilation unit,
/// ascending: one for each unit that has a node.
pub fn context_heads(cc: &ContextCollection) -> (r: Vec<usize>)
    ensures
        r@ == selected(|j: int| opens_context(cc.nodes(), j), cc.nodes().len()),
{
    let ghost nodes = cc.nodes();
    let ghost p = |j: int| opens_context(nodes, j);
    let n = cc.len();
    let mut out: Vec<usize> = Vec::new();
    let mut j: usize = 0;
    while j < n
        invariant
            n == nodes.len(),
            nodes == cc.nodes(),
            p == (|j: int| opens_context(nodes, j)),
            j <= n,
            out@ == selected(p, j as nat),
        decreases n - j,
    {
        let mut first = true;
        let mut i: usize = 0;
        while i < j
            invariant
                n == nodes.len(),
                nodes == cc.nodes(),
                j < n,
                i <= j,
                first == (forall|a: int|
                    0 <= a < i ==> (#[trigger] nodes[a]).context_root@ != nodes[j as int].context_root@),
            decreases j - i,
        {
            if cc.get(i).context_root.same_as(&cc.get(j).context_root) {
                first = false;
            }
            i += 1;
        }
        if first {
            assert(p(j as int));
            out.push(j);
        } else {
            assert(!p(j as int));
        }
        j += 1;
    }
    out
}

pub open spec fn umbrella_body(list: Seq<usize>, nodes: Seq<CppType>, upto: nat) -> Seq<Seq<char>>
    decreases upto,
{
    if upto == 0 {
        Seq::empty()
    } else {
        umbrella_body(list, nodes, (upto - 1) as nat).push(forward_line(nodes[list[upto - 1] as int]))
    }
}

/// The lines of the umbrella header of a namespace: the guard and the
/// forward declaration of each of its nodes.
pub open spec fn umbrella_lines(nodes: Seq<CppType>, namespace: Seq<char>) -> Seq<Seq<char>> {
    let members = selected(|j: int| nodes[j].namespace@ == namespace, nodes.len());
    seq!["#pragma once"@] + umbrella_body(members, nodes, members.len())
}

/// The umbrella header of the namespace `namespace`, line by line.
pub fn write_namespace_header(cc: &ContextCollection, namespace: &str) -> (lines: Vec<String>)
    ensures
        name_views(lines@) == umbrella_lines(cc.nodes(), namespace@),
{
    let ghost nodes = cc.nodes();
    let members = namespace_members(cc, namespace);
    let count = cc.len();
    proof {
        crate::generate::emit::plan::lemma_selected(
            |j: int| nodes[j].namespace@ == namespace@,
            nodes.len(),
        );
    }
    let mut lines: Vec<String> = Vec::new();
    lines.push(String::from_str("#pragma once"));
    let ghost s0 = name_views(lines@);
    assert(s0 =~= seq!["#pragma once"@]);
    assert(s0 + umbrella_body(members@, nodes, 0) =~= s0);
    let mut k: usize = 0;
    while k < members.len()
        invariant
            nodes == cc.nodes(),
            k <= members.len(),
            forall|i: int| 0 <= i < members.len() ==> (#[trigger] members[i]) < nodes.len(),
            name_views(lines@) == s0 + umbrella_body(members@, nodes, k as nat),
        decreases members.len() - k,
    {
        let ghost before = name_views(lines@);
        let ghost body = umbrella_body(members@, nodes, k as nat);
        let n = cc.get(members[k]);
        let mut line = String::from_str("struct ");
        line.append(scoped_cpp_name(n).as_str());
        line.append(";");
        lines.push(line);
        assert(name_views(lines@) =~= before.push(line@));
        assert((s0 + body).push(line@) =~= s0 + body.push(line@));
        k += 1;
    }
    lines
}

} // verus!
