use cordl::generate::config::GenerationConfig;
use cordl::generate::context::CppContext;
use cordl::generate::context_collection::handlers::HandlerOutcome;
use cordl::generate::context_collection::ContextCollection;
use cordl::generate::emit::names::{decimal, full_cpp_name, join, type_cpp_text};
use cordl::generate::emit::plan::emission_plan;
use cordl::generate::emit::render::{render_unit, unit_cpp_path, write_unit};
use cordl::generate::metadata::{
    FieldDefinition, LayoutParameters, Metadata, MetadataTables, MethodDefinition, MethodSpec,
    ParameterDefinition, PointerSize, Primitive, PropertyDefinition, TypeDefinition, TypeRecord,
};
use cordl::generate::passes::{fill_types, make_generic_types, make_top_level_types};
use cordl::generate::select::{
    context_heads, namespace_heads, namespace_members, node_matches, nth_match, write_namespace_header, NodeQuery,
};
use cordl::generate::cpp_type::ResolvedType;
use cordl::generate::type_tag::{SpecialKind, TypeTag};
use std::path::PathBuf;

fn config() -> GenerationConfig {
    GenerationConfig {
        source_path: PathBuf::from("./codegen/src"),
        header_path: PathBuf::from("./codegen/include"),
    }
}

fn parameters() -> LayoutParameters {
    LayoutParameters {
        pointer_size: PointerSize::Bytes8,
        packing_field_offset: 7,
        size_is_default_offset: 12,
        specified_packing_field_offset: 13,
        packing_is_default_offset: 11,
    }
}

fn definition(namespace: &str, name: &str) -> TypeDefinition {
    TypeDefinition {
        name: name.to_string(),
        namespace: namespace.to_string(),
        declaring_type: None,
        base_type: None,
        interfaces: vec![],
        generic_parameters: vec![],
        field_start: 0,
        field_count: 0,
        method_start: 0,
        method_count: 0,
        property_start: 0,
        property_count: 0,
        is_value_type: false,
        is_enum: false,
        is_interface: false,
        bitfield: (1 << 10) | (1 << 11),
        explicit_size: None,
    }
}

const T_INT: u32 = 0;
const T_STRING: u32 = 1;
const T_OBJECT: u32 = 2;
const T_LIST: u32 = 3;
const T_PARAM0: u32 = 4;
const T_LIST_INT: u32 = 5;
const T_LIST_STRING: u32 = 6;
const T_COLOR: u32 = 7;
const T_WIDGET: u32 = 8;
const T_LIST_LIST_INT: u32 = 9;
const T_SHAPE: u32 = 10;
const T_KIND: u32 = 11;

const OBJECT: u32 = 0;
const LIST: u32 = 1;
const COLOR: u32 = 2;
const WIDGET: u32 = 3;
const PART: u32 = 4;
const SHAPE: u32 = 5;
const KIND: u32 = 6;

fn tables() -> MetadataTables {
    let types = vec![
        TypeRecord::Primitive(Primitive::I4),
        TypeRecord::Primitive(Primitive::String),
        TypeRecord::Definition(OBJECT),
        TypeRecord::Definition(LIST),
        TypeRecord::GenericParameter(0),
        TypeRecord::GenericInstance { definition_index: LIST, type_arguments: vec![T_INT] },
        TypeRecord::GenericInstance { definition_index: LIST, type_arguments: vec![T_STRING] },
        TypeRecord::Definition(COLOR),
        TypeRecord::Definition(WIDGET),
        TypeRecord::GenericInstance { definition_index: LIST, type_arguments: vec![T_LIST_INT] },
        TypeRecord::Definition(SHAPE),
        TypeRecord::Definition(KIND),
    ];
    let fields = vec![
        FieldDefinition { name: "_items".to_string(), type_index: T_PARAM0, is_static: false },
        FieldDefinition { name: "r".to_string(), type_index: T_INT, is_static: false },
        FieldDefinition { name: "tint".to_string(), type_index: T_COLOR, is_static: false },
        FieldDefinition { name: "<Label>k".to_string(), type_index: T_STRING, is_static: false },
        FieldDefinition { name: "All".to_string(), type_index: T_LIST_INT, is_static: true },
        FieldDefinition { name: "value__".to_string(), type_index: T_INT, is_static: false },
    ];
    let methods = vec![
        MethodDefinition {
            name: "Add".to_string(),
            declaring_type: LIST,
            return_type: T_INT,
            parameter_start: 0,
            parameter_count: 1,
            is_static: false,
        },
        MethodDefinition {
            name: "Resize".to_string(),
            declaring_type: WIDGET,
            return_type: T_WIDGET,
            parameter_start: 1,
            parameter_count: 2,
            is_static: true,
        },
    ];
    let parameters = vec![
        ParameterDefinition { name: "item".to_string(), type_index: T_PARAM0, default_value: None },
        ParameterDefinition { name: "by".to_string(), type_index: T_COLOR, default_value: None },
        ParameterDefinition {
            name: "times".to_string(),
            type_index: T_INT,
            default_value: Some("2".to_string()),
        },
    ];
    let properties = vec![PropertyDefinition {
        name: "Label".to_string(),
        type_index: T_STRING,
        has_getter: true,
        has_setter: true,
    }];
    let method_specs = vec![
        MethodSpec { method_index: 0, class_arguments: Some(vec![T_INT]), method_arguments: None },
        MethodSpec { method_index: 0, class_arguments: Some(vec![T_STRING]), method_arguments: None },
        MethodSpec {
            method_index: 0,
            class_arguments: Some(vec![T_LIST_INT]),
            method_arguments: None,
        },
    ];
    let object = definition("System", "Object");
    let mut list = definition("System.Collections.Generic", "List`1");
    list.base_type = Some(T_OBJECT);
    list.generic_parameters = vec!["T".to_string()];
    list.field_start = 0;
    list.field_count = 1;
    list.method_start = 0;
    list.method_count = 1;
    let mut color = definition("UnityEngine", "Color");
    color.is_value_type = true;
    color.field_start = 1;
    color.field_count = 1;
    let mut widget = definition("Game.UI", "Widget");
    widget.base_type = Some(T_SHAPE);
    widget.field_start = 2;
    widget.field_count = 3;
    widget.method_start = 1;
    widget.method_count = 1;
    widget.property_start = 0;
    widget.property_count = 1;
    let mut part = definition("", "Part");
    part.declaring_type = Some(WIDGET);
    let shape = definition("Game.UI", "Shape");
    let mut kind = definition("Game.UI", "Kind");
    kind.is_value_type = true;
    kind.is_enum = true;
    kind.field_start = 5;
    kind.field_count = 1;
    MetadataTables {
        type_definitions: vec![object, list, color, widget, part, shape, kind],
        types,
        fields,
        methods,
        parameters,
        properties,
        method_specs,
    }
}

fn filled() -> ContextCollection {
    let md = Metadata::new(tables(), parameters()).unwrap();
    let mut cc = ContextCollection::new(md, config());
    make_top_level_types(&mut cc);
    assert_eq!(make_generic_types(&mut cc), Ok(()));
    cc.fill_all_nested_types();
    assert_eq!(fill_types(&mut cc), Ok(()));
    cc
}

fn def(d: u32) -> TypeTag {
    TypeTag::DefinitionRef(d)
}

fn handle(cc: &ContextCollection, tag: TypeTag) -> usize {
    cc.find(&tag).expect("node")
}

#[test]
fn numbers_are_written_in_decimal() {
    assert_eq!(decimal(0), "0");
    assert_eq!(decimal(7), "7");
    assert_eq!(decimal(10), "10");
    assert_eq!(decimal(409), "409");
    assert_eq!(decimal(u32::MAX), "4294967295");
}

#[test]
fn parts_are_joined_with_the_separator_between_them() {
    assert_eq!(join(&vec![], ", "), "");
    assert_eq!(join(&vec!["a".to_string()], ", "), "a");
    assert_eq!(join(&vec!["a".to_string(), "b".to_string(), "".to_string()], ", "), "a, b, ");
}

#[test]
fn instantiations_of_one_definition_have_different_names() {
    let cc = filled();
    let of_int = handle(
        &cc,
        TypeTag::GenericInstantiation { definition_index: LIST, type_arguments: vec![T_INT] },
    );
    let of_string = handle(
        &cc,
        TypeTag::GenericInstantiation { definition_index: LIST, type_arguments: vec![T_STRING] },
    );
    let of_list = handle(
        &cc,
        TypeTag::GenericInstantiation { definition_index: LIST, type_arguments: vec![T_LIST_INT] },
    );
    assert_eq!(full_cpp_name(&cc, of_int), "System::Collections::Generic::List_1<int32_t>");
    assert_eq!(full_cpp_name(&cc, of_string), "System::Collections::Generic::List_1<Il2CppString*>");
    assert_eq!(
        full_cpp_name(&cc, of_list),
        "System::Collections::Generic::List_1<System::Collections::Generic::List_1<int32_t>>"
    );
    assert_eq!(full_cpp_name(&cc, handle(&cc, def(LIST))), "System::Collections::Generic::List_1");
    assert_eq!(full_cpp_name(&cc, handle(&cc, def(PART))), "Widget::Part");
    assert_ne!(cc.get(of_int).fields[0].size, cc.get(of_string).fields[0].size);
}

#[test]
fn types_are_written_by_what_they_resolve_to() {
    let cc = filled();
    assert_eq!(type_cpp_text(&cc, &ResolvedType::Opaque), "void*");
    assert_eq!(type_cpp_text(&cc, &ResolvedType::Parameter(3)), "T3");
    assert_eq!(type_cpp_text(&cc, &ResolvedType::Primitive(Primitive::R8)), "double");
    assert_eq!(type_cpp_text(&cc, &ResolvedType::Node(def(COLOR))), "UnityEngine::Color");
    assert_eq!(type_cpp_text(&cc, &ResolvedType::Node(def(WIDGET))), "Game::UI::Widget*");
    // A tag without a node is written as a placeholder.
    assert_eq!(
        type_cpp_text(&cc, &ResolvedType::Node(TypeTag::Grouped(SpecialKind::EnumRoot))),
        "void*"
    );
}

#[test]
fn unit_paths_follow_namespace_and_name() {
    let cc = filled();
    assert_eq!(unit_cpp_path(&cc, &def(LIST)), "System/Collections/Generic/List_1.hpp");
    assert_eq!(unit_cpp_path(&cc, &def(WIDGET)), "Game/UI/Widget.hpp");
    assert_eq!(unit_cpp_path(&cc, &def(PART)), "Part.hpp");
    assert_eq!(unit_cpp_path(&cc, &TypeTag::Grouped(SpecialKind::ArrayRoot)), "ArrayWrapper.hpp");
    assert_eq!(unit_cpp_path(&cc, &def(99)), "");
}

#[test]
fn unit_is_rendered_in_plan_order() {
    let cc = filled();
    let lines = write_unit(&cc, &def(WIDGET));
    let expected = vec![
        "#pragma once",
        "#include \"UnityEngine/Color.hpp\"",
        "#include \"Game/UI/Shape.hpp\"",
        // Handles ascend: the widget, then the instantiation of the list.
        "struct Game::UI::Widget;",
        "struct System::Collections::Generic::List_1;",
        "struct Game::UI::Widget : Game::UI::Shape {",
        "    // size 32, alignment 8",
        "    // tint",
        "    UnityEngine::Color tint; // offset 16, size 4",
        "    // <Label>k",
        "    Il2CppString* _Label_k; // offset 24, size 8",
        "    // All",
        "    static System::Collections::Generic::List_1<int32_t>* All;",
        "    // Resize",
        "    static Game::UI::Widget* Resize(UnityEngine::Color by, int32_t times = 2);",
        "    // property Il2CppString* Label",
        "};",
        "struct Widget::Part {",
        "    // size 16, alignment 8",
        "};",
    ];
    assert_eq!(lines, expected);
    let plan = emission_plan(&cc, &def(WIDGET));
    assert_eq!(render_unit(&cc, &plan), lines);
    // The owner stands before the type nested in it.
    assert_eq!(plan.definitions, vec![handle(&cc, def(WIDGET)), handle(&cc, def(PART))]);
}

#[test]
fn every_mentioned_type_is_declared_before_the_definitions() {
    let cc = filled();
    for i in 0..cc.len() {
        let root = cc.get(i).context_root.clone();
        let plan = emission_plan(&cc, &root);
        let mut seen = vec![false; cc.len()];
        for h in plan.definitions.iter().chain(&plan.includes) {
            assert!(!seen[*h], "declared in full twice");
            seen[*h] = true;
        }
        for h in &plan.definitions {
            let n = cc.get(*h);
            assert_eq!(n.context_root, root);
            for f in &n.fields {
                if let ResolvedType::Node(t) = &f.ty.resolved {
                    let target = cc.find(t).unwrap();
                    assert!(
                        plan.includes.contains(&target)
                            || plan.forward_declarations.contains(&target)
                    );
                }
            }
            if let Some(b) = &n.base {
                if let ResolvedType::Node(t) = &b.resolved {
                    let target = cc.find(t).unwrap();
                    let own = plan.definitions.iter().position(|d| *d == target);
                    let me = plan.definitions.iter().position(|d| d == h).unwrap();
                    assert!(plan.includes.contains(&target) || own.unwrap() < me);
                }
            }
        }
    }
}

#[test]
fn comments_can_be_removed() {
    let mut cc = filled();
    let before = write_unit(&cc, &def(WIDGET));
    cc.remove_comments();
    let after = write_unit(&cc, &def(WIDGET));
    let kept: Vec<String> = before
        .into_iter()
        .filter(|l| {
            !(l == "    // tint" || l == "    // <Label>k" || l == "    // All" || l == "    // Resize")
        })
        .collect();
    assert_eq!(after, kept);
    let w = cc.get(handle(&cc, def(WIDGET)));
    assert!(w.fields.iter().all(|f| f.brief_comment.is_none()));
    assert!(w.methods.iter().all(|m| m.brief_comment.is_none()));
    assert_eq!(w.fields[0].name, "tint");
    assert_eq!(w.fields[0].offset, 16);
}

#[test]
fn handlers_are_found_by_the_name_of_their_type() {
    let mut cc = filled();
    assert_eq!(cc.register_special(SpecialKind::ObjectRoot), HandlerOutcome::Applied);
    assert_eq!(cc.register_special(SpecialKind::ObjectRoot), HandlerOutcome::AlreadyClaimed);
    // The image has no System.Enum.
    assert_eq!(cc.register_special(SpecialKind::EnumRoot), HandlerOutcome::MissingNode);
    let object = cc.get(handle(&cc, def(OBJECT)));
    assert_eq!(object.handler, Some(SpecialKind::ObjectRoot));
    let lines = write_unit(&cc, &def(OBJECT));
    assert_eq!(
        lines,
        vec![
            "#pragma once",
            "#include \"ObjectWrapper.hpp\"",
            "struct System::Object : ObjectWrapper {",
            "    // size 16, alignment 8",
            "};",
        ]
    );
}

#[test]
fn nodes_are_selected_by_what_they_are() {
    let cc = filled();
    assert_eq!(nth_match(&cc, &NodeQuery::GenericTemplate, 0), Some(handle(&cc, def(LIST))));
    assert_eq!(nth_match(&cc, &NodeQuery::GenericTemplate, 1), None);
    assert_eq!(nth_match(&cc, &NodeQuery::EnumType, 0), Some(handle(&cc, def(KIND))));
    let named = NodeQuery::Named { namespace: "Game.UI".to_string(), name: "Widget".to_string() };
    assert_eq!(nth_match(&cc, &named, 0), Some(handle(&cc, def(WIDGET))));
    let value = NodeQuery::ValueTypeNamed {
        namespace: "UnityEngine".to_string(),
        name: "Color".to_string(),
    };
    assert_eq!(nth_match(&cc, &value, 0), Some(handle(&cc, def(COLOR))));
    let not_value = NodeQuery::ValueTypeNamed {
        namespace: "Game.UI".to_string(),
        name: "Widget".to_string(),
    };
    assert_eq!(nth_match(&cc, &not_value, 0), None);
    assert_eq!(nth_match(&cc, &NodeQuery::Name("Part".to_string()), 0), Some(handle(&cc, def(PART))));
    assert_eq!(nth_match(&cc, &NodeQuery::DefaultParameter, 0), Some(handle(&cc, def(WIDGET))));
    assert_eq!(nth_match(&cc, &NodeQuery::DefaultParameter, 1), None);
    // The definition and its three instantiations are made from List`1.
    let list = NodeQuery::Name("List`1".to_string());
    assert!(nth_match(&cc, &list, 3).is_some());
    assert_eq!(nth_match(&cc, &list, 4), None);
    let inst = NodeQuery::GenericInstanceNamed("List_1".to_string());
    let first = nth_match(&cc, &inst, 0).unwrap();
    assert!(cc.get(first).generic_arguments.is_some());
    assert!(!node_matches(&cc, handle(&cc, def(LIST)), &inst));
}

#[test]
fn namespaces_gather_their_nodes() {
    let cc = filled();
    let members = namespace_members(&cc, "Game::UI");
    assert_eq!(
        members,
        vec![handle(&cc, def(WIDGET)), handle(&cc, def(SHAPE)), handle(&cc, def(KIND))]
    );
    let heads = namespace_heads(&cc);
    let names: Vec<String> = heads.iter().map(|h| cc.get(*h).namespace.clone()).collect();
    assert_eq!(
        names,
        vec!["System", "System::Collections::Generic", "UnityEngine", "Game::UI", ""]
    );
    assert_eq!(
        write_namespace_header(&cc, "Game::UI"),
        vec![
            "#pragma once",
            "struct Game::UI::Widget;",
            "struct Game::UI::Shape;",
            "struct Game::UI::Kind;",
        ]
    );
    assert_eq!(write_namespace_header(&cc, "Nowhere"), vec!["#pragma once"]);
}

#[test]
fn unit_owns_the_nodes_rooted_at_it() {
    let cc = filled();
    let unit = CppContext::get(&cc, &def(WIDGET));
    assert_eq!(unit.root, def(WIDGET));
    assert_eq!(unit.typedef_path, "Game/UI/Widget.hpp");
    assert_eq!(unit.types, vec![handle(&cc, def(WIDGET)), handle(&cc, def(PART))]);
    assert_eq!(unit.write(&cc), write_unit(&cc, &def(WIDGET)));
    // The instantiations of a generic definition live in its unit.
    let list = CppContext::get(&cc, &def(LIST));
    assert_eq!(list.types.len(), 4);
    assert_eq!(list.types[0], handle(&cc, def(LIST)));
    // One head for each unit.
    let heads = context_heads(&cc);
    let roots: Vec<TypeTag> = heads.iter().map(|h| cc.get(*h).context_root.clone()).collect();
    assert_eq!(roots, vec![def(OBJECT), def(LIST), def(COLOR), def(WIDGET), def(SHAPE), def(KIND)]);
    assert!(CppContext::get(&cc, &def(PART)).types.is_empty());
}

#[test]
fn facade_hands_out_the_members_of_a_definition() {
    let md = Metadata::new(tables(), parameters()).unwrap();
    let names: Vec<&str> = md.fields_of(WIDGET).iter().map(|f| f.name.as_str()).collect();
    assert_eq!(names, vec!["tint", "<Label>k", "All"]);
    assert_eq!(md.methods_of(WIDGET).len(), 1);
    assert_eq!(md.methods_of(WIDGET)[0].name, "Resize");
    assert!(md.fields_of(OBJECT).is_empty());
    assert_eq!(md.generic_params_of(LIST), &vec!["T".to_string()]);
    assert_eq!(md.find_definition("Game.UI", "Shape"), Some(SHAPE));
    assert_eq!(md.find_definition("", "Part"), None);
    assert_eq!(md.find_definition("Game.UI", "Missing"), None);
}
