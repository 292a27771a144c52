//! Names in the emitted text: numbers, built-in kinds, types of the metadata
//! and nodes of the registry.
use crate::generate::config::{spec_name_cpp, spec_namespace_cpp, GenerationConfig};
use crate::generate::context_collection::{node_ok, ContextCollection};
use crate::generate::cpp_type::{has_tag, name_views, CppType, ResolvedType, ResolvedView};
use crate::generate::metadata::{all_below, type_record_ok, Metadata, Primitive, TypeRecord};
use crate::generate::type_tag::{TagView, TypeTag};
use vstd::prelude::*;

verus! {

pub open spec fn digit_text(d: int) -> Seq<char> {
    if d == 0 {
        "0"@
    } else if d == 1 {
        "1"@
    } else if d == 2 {
        "2"@
    } else if d == 3 {
        "3"@
    } else if d == 4 {
        "4"@
    } else if d == 5 {
        "5"@
    } else if d == 6 {
        "6"@
    } else if d == 7 {
        "7"@
    } else if d == 8 {
        "8"@
    } else {
        "9"@
    }
}

/// The decimal digits of `n`.
pub open spec fn decimal_text(n: nat) -> Seq<char>
    decreases n,
{
    if n < 10 {
        digit_text(n as int)
    } else {
        decimal_text(n / 10) + digit_text((n % 10) as int)
    }
}

fn digit(d: u32) -> (r: &'static str)
    requires
        d < 10,
    ensures
        r@ == digit_text(d as int),
{
    if d == 0 {
        "0"
    } else if d == 1 {
        "1"
    } else if d == 2 {
        "2"
    } else if d == 3 {
        "3"
    } else if d == 4 {
        "4"
    } else if d == 5 {
        "5"
    } else if d == 6 {
        "6"
    } else if d == 7 {
        "7"
    } else if d == 8 {
        "8"
    } else {
        "9"
    }
}

/// `n` in decimal digits.
pub fn decimal(n: u32) -> (r: String)
    ensures
        r@ == decimal_text(n as nat),
    decreases n,
{
    if n < 10 {
        String::from_str(digit(n))
    } else {
        let mut out = decimal(n / 10);
        out.append(digit(n % 10));
        out
    }
}

/// The first `upto` parts with `sep` between them.
pub open spec fn joined(parts: Seq<Seq<char>>, sep: Seq<char>, upto: nat) -> Seq<char>
    decreases upto,
{
    if upto == 0 {
        Seq::empty()
    } else if upto == 1 {
        parts[0]
    } else {
        joined(parts, sep, (upto - 1) as nat) + sep + parts[upto - 1]
    }
}

/// The parts with `sep` between them.
pub fn join(parts: &Vec<String>, sep: &str) -> (r: String)
    ensures
        r@ == joined(name_views(parts@), sep@, parts.len() as nat),
{
    if parts.len() == 0 {
        return String::new();
    }
    let mut out = parts[0].clone();
    let mut k: usize = 1;
    while k < parts.len()
        invariant
            1 <= k <= parts.len(),
            out@ == joined(name_views(parts@), sep@, k as nat),
        decreases parts.len() - k,
    {
        out.append(sep);
        out.append(parts[k].as_str());
        k += 1;
    }
    out
}

/// The native name of a built-in kind.
pub open spec fn primitive_name(p: Primitive) -> Seq<char> {
    match p {
        Primitive::Void => "void"@,
        Primitive::Boolean => "bool"@,
        Primitive::Char => "char16_t"@,
        Primitive::I1 => "int8_t"@,
        Primitive::U1 => "uint8_t"@,
        Primitive::I2 => "int16_t"@,
        Primitive::U2 => "uint16_t"@,
        Primitive::I4 => "int32_t"@,
        Primitive::U4 => "uint32_t"@,
        Primitive::I8 => "int64_t"@,
        Primitive::U8 => "uint64_t"@,
        Primitive::R4 => "float"@,
        Primitive::R8 => "double"@,
        Primitive::IntPtr => "intptr_t"@,
        Primitive::UIntPtr => "uintptr_t"@,
        Primitive::String => "Il2CppString*"@,
        Primitive::Object => "Il2CppObject*"@,
    }
}

pub fn primitive_cpp_name(p: Primitive) -> (r: String)
    ensures
        r@ == primitive_name(p),
{
    match p {
        Primitive::Void => String::from_str("void"),
        Primitive::Boolean => String::from_str("bool"),
        Primitive::Char => String::from_str("char16_t"),
        Primitive::I1 => String::from_str("int8_t"),
        Primitive::U1 => String::from_str("uint8_t"),
        Primitive::I2 => String::from_str("int16_t"),
        Primitive::U2 => String::from_str("uint16_t"),
        Primitive::I4 => String::from_str("int32_t"),
        Primitive::U4 => String::from_str("uint32_t"),
        Primitive::I8 => String::from_str("int64_t"),
        Primitive::U8 => String::from_str("uint64_t"),
        Primitive::R4 => String::from_str("float"),
        Primitive::R8 => String::from_str("double"),
        Primitive::IntPtr => String::from_str("intptr_t"),
        Primitive::UIntPtr => String::from_str("uintptr_t"),
        Primitive::String => String::from_str("Il2CppString*"),
        Primitive::Object => String::from_str("Il2CppObject*"),
    }
}

/// The name of a generic parameter by position.
pub open spec fn parameter_name(k: u32) -> Seq<char> {
    "T"@ + decimal_text(k as nat)
}

pub fn parameter_cpp_name(k: u32) -> (r: String)
    ensures
        r@ == parameter_name(k),
{
    let mut out = String::from_str("T");
    out.append(decimal(k).as_str());
    out
}

/// The scoped name of a definition, as the metadata alone gives it: the
/// namespace, where there is one, and the name.
pub open spec fn definition_name(md: Metadata, d: int) -> Seq<char> {
    let def = md.definitions()[d];
    if def.namespace@.len() > 0 {
        spec_namespace_cpp(def.namespace@) + "::"@ + spec_name_cpp(def.name@)
    } else {
        spec_name_cpp(def.name@)
    }
}

pub fn definition_cpp_name(md: &Metadata, config: &GenerationConfig, d: u32) -> (r: String)
    requires
        d < md.definitions().len(),
    ensures
        r@ == definition_name(*md, d as int),
{
    let def = md.type_definition(d);
    if !def.namespace.as_str().is_empty() {
        let mut out = config.namespace_cpp(def.namespace.clone());
        out.append("::");
        out.append(config.name_cpp(def.name.clone()).as_str());
        out
    } else {
        config.name_cpp(def.name.clone())
    }
}

/// The name of the type at `ty` as a generic argument. `fuel` bounds the
/// depth of arguments inside arguments; what lies deeper is left out.
pub open spec fn argument_name(md: Metadata, ty: int, fuel: nat) -> Seq<char>
    decreases fuel, 0nat,
{
    match md.tables().types[ty] {
        TypeRecord::Primitive(p) => primitive_name(p),
        TypeRecord::Definition(d) => definition_name(md, d as int),
        TypeRecord::GenericInstance { definition_index, type_arguments } => if fuel == 0 {
            definition_name(md, definition_index as int)
        } else {
            definition_name(md, definition_index as int) + "<"@ + joined(
                argument_names(md, type_arguments@, (fuel - 1) as nat, type_arguments.len() as nat),
                ", "@,
                type_arguments.len() as nat,
            ) + ">"@
        },
        TypeRecord::GenericParameter(k) => parameter_name(k),
        TypeRecord::Array(e) => if fuel == 0 {
            "ArrayWrapper"@
        } else {
            "ArrayWrapper<"@ + argument_name(md, e as int, (fuel - 1) as nat) + ">"@
        },
    }
}

/// The names of the first `upto` of the arguments.
pub open spec fn argument_names(md: Metadata, args: Seq<u32>, fuel: nat, upto: nat) -> Seq<
    Seq<char>,
>
    decreases fuel, 1nat, upto,
{
    if upto == 0 {
        Seq::empty()
    } else {
        argument_names(md, args, fuel, (upto - 1) as nat).push(
            argument_name(md, args[upto - 1] as int, fuel),
        )
    }
}

fn argument_cpp_name(md: &Metadata, config: &GenerationConfig, ty: u32, fuel: usize) -> (r: String)
    requires
        md.wf(),
        ty < md.tables().types.len(),
    ensures
        r@ == argument_name(*md, ty as int, fuel as nat),
    decreases fuel, 0nat,
{
    proof {
        md.lemma_wf();
        assert(type_record_ok(
            md.tables().types[ty as int],
            md.tables().type_definitions.len() as int,
            md.tables().types.len() as int,
        ));
    }
    match &md.get_tables().types[ty as usize] {
        TypeRecord::Primitive(p) => primitive_cpp_name(*p),
        TypeRecord::Definition(d) => definition_cpp_name(md, config, *d),
        TypeRecord::GenericInstance { definition_index, type_arguments } => {
            let mut out = definition_cpp_name(md, config, *definition_index);
            if fuel > 0 {
                let names = argument_cpp_names(md, config, type_arguments, fuel - 1);
                out.append("<");
                out.append(join(&names, ", ").as_str());
                out.append(">");
            }
            out
        },
        TypeRecord::GenericParameter(k) => parameter_cpp_name(*k),
        TypeRecord::Array(e) => {
            if fuel == 0 {
                String::from_str("ArrayWrapper")
            } else {
                let mut out = String::from_str("ArrayWrapper<");
                out.append(argument_cpp_name(md, config, *e, fuel - 1).as_str());
                out.append(">");
                out
            }
        },
    }
}

fn argument_cpp_names(md: &Metadata, config: &GenerationConfig, args: &Vec<u32>, fuel: usize) -> (r:
    Vec<String>)
    requires
        md.wf(),
        all_below(args@, md.tables().types.len() as int),
    ensures
        name_views(r@) == argument_names(*md, args@, fuel as nat, args.len() as nat),
        r.len() == args.len(),
    decreases fuel, 1nat, args.len(),
{
    let mut out: Vec<String> = Vec::new();
    let mut k: usize = 0;
    assert(name_views(out@) =~= argument_names(*md, args@, fuel as nat, 0));
    while k < args.len()
        invariant
            md.wf(),
            all_below(args@, md.tables().types.len() as int),
            k <= args.len(),
            out.len() == k,
            name_views(out@) == argument_names(*md, args@, fuel as nat, k as nat),
        decreases args.len() - k,
    {
        let ghost before = name_views(out@);
        let name = argument_cpp_name(md, config, args[k], fuel);
        out.push(name);
        assert(name_views(out@) =~= before.push(name@));
        k += 1;
    }
    out
}

/// The names of the enclosing types, each followed by the scope operator.
pub open spec fn scope_prefix(parts: Seq<String>, upto: nat) -> Seq<char>
    decreases upto,
{
    if upto == 0 {
        Seq::empty()
    } else {
        scope_prefix(parts, (upto - 1) as nat) + parts[upto - 1]@ + "::"@
    }
}

/// The name of a node inside its namespace and its enclosing types.
pub open spec fn scoped_name(n: CppType) -> Seq<char> {
    (if n.namespace@.len() > 0 {
        n.namespace@ + "::"@
    } else {
        Seq::empty()
    }) + scope_prefix(n.enclosing@, n.enclosing.len() as nat) + n.name@
}

pub fn scoped_cpp_name(n: &CppType) -> (r: String)
    ensures
        r@ == scoped_name(*n),
{
    let mut out = String::new();
    if !n.namespace.as_str().is_empty() {
        out.append(n.namespace.as_str());
        out.append("::");
        assert(out@ =~= n.namespace@ + "::"@);
    }
    let ghost start = out@;
    let mut k: usize = 0;
    assert(start + scope_prefix(n.enclosing@, 0) =~= start);
    while k < n.enclosing.len()
        invariant
            k <= n.enclosing.len(),
            out@ == start + scope_prefix(n.enclosing@, k as nat),
        decreases n.enclosing.len() - k,
    {
        let ghost before = scope_prefix(n.enclosing@, k as nat);
        out.append(n.enclosing[k].as_str());
        out.append("::");
        assert(((start + before) + n.enclosing[k as int]@) + "::"@ =~= start + ((before
            + n.enclosing[k as int]@) + "::"@));
        k += 1;
    }
    out.append(n.name.as_str());
    out
}

/// The full name of a node: its scoped name and, for a generic
/// instantiation, the names of its arguments.
pub open spec fn full_name(n: CppType, md: Metadata) -> Seq<char> {
    match n.self_tag@ {
        TagView::GenericInstantiation { type_arguments, .. } => scoped_name(n) + "<"@ + joined(
            argument_names(
                md,
                type_arguments,
                md.tables().types.len() as nat,
                type_arguments.len(),
            ),
            ", "@,
            type_arguments.len(),
        ) + ">"@,
        _ => scoped_name(n),
    }
}

/// The full name of the node behind `handle`.
pub fn full_cpp_name(cc: &ContextCollection, handle: usize) -> (r: String)
    requires
        cc.wf(),
        handle < cc.nodes().len(),
    ensures
        r@ == full_name(cc.nodes()[handle as int], cc.metadata()),
{
    let n = cc.get(handle);
    let md = cc.get_metadata();
    assert(node_ok(cc.metadata(), cc.nodes(), cc.nodes()[handle as int]));
    let mut out = scoped_cpp_name(n);
    match &n.self_tag {
        TypeTag::GenericInstantiation { type_arguments, .. } => {
            let names = argument_cpp_names(
                md,
                cc.get_config(),
                type_arguments,
                md.get_tables().types.len(),
            );
            out.append("<");
            out.append(join(&names, ", ").as_str());
            out.append(">");
        },
        _ => {},
    }
    out
}

/// The node registered under `t`.
pub open spec fn node_of(nodes: Seq<CppType>, t: TagView) -> CppType {
    nodes[choose|i: int| 0 <= i < nodes.len() && (#[trigger] nodes[i]).self_tag@ == t]
}

/// How a resolved type is written where it is used: a built-in kind by its
/// native name, a generic parameter by position, a value type by its full
/// name, any other node as a pointer to it, a placeholder as an untyped
/// pointer.
pub open spec fn type_text(r: ResolvedView, md: Metadata, nodes: Seq<CppType>) -> Seq<char> {
    match r {
        ResolvedView::Primitive(p) => primitive_name(p),
        ResolvedView::Parameter(k) => parameter_name(k),
        ResolvedView::Opaque => "void*"@,
        ResolvedView::Node(t) => if has_tag(nodes, t) {
            let n = node_of(nodes, t);
            if n.is_value_type {
                full_name(n, md)
            } else {
                full_name(n, md) + "*"@
            }
        } else {
            "void*"@
        },
    }
}

/// The text of a resolved type.
pub fn type_cpp_text(cc: &ContextCollection, r: &ResolvedType) -> (out: String)
    requires
        cc.wf(),
    ensures
        out@ == type_text(r@, cc.metadata(), cc.nodes()),
{
    match r {
        ResolvedType::Primitive(p) => primitive_cpp_name(*p),
        ResolvedType::Parameter(k) => parameter_cpp_name(*k),
        ResolvedType::Opaque => String::from_str("void*"),
        ResolvedType::Node(t) => match cc.find(t) {
            Some(i) => {
                proof {
                    let c = choose|c: int|
                        0 <= c < cc.nodes().len() && (#[trigger] cc.nodes()[c]).self_tag@ == t@;
                    cc.lemma_one_node_per_tag(c, i as int);
                }
                let mut out = full_cpp_name(cc, i);
                if !cc.get(i).is_value_type {
                    out.append("*");
                }
                out
            },
            None => String::from_str("void*"),
        },
    }
}

} // verus!
