use cordl::generate::config::GenerationConfig;
use cordl::generate::context_collection::fill::FillOutcome;
use cordl::generate::context_collection::generic::GenerateError;
use cordl::generate::context_collection::handlers::HandlerOutcome;
use cordl::generate::context_collection::ContextCollection;
use cordl::generate::cpp_type::ResolvedType;
use cordl::generate::emit::plan::emission_plan;
use cordl::generate::metadata::{
    FieldDefinition, LayoutParameters, Metadata, MetadataError, MetadataTables, MethodDefinition,
    MethodSpec, ParameterDefinition, PointerSize, Primitive, PropertyDefinition, TypeDefinition,
    TypeRecord,
};
use cordl::generate::passes::{fill_types, make_generic_types, make_nested_types, make_top_level_types};
use cordl::generate::type_tag::{SpecialKind, TypeTag};
use std::path::PathBuf;

fn config() -> GenerationConfig {
    GenerationConfig {
        source_path: PathBuf::from("./codegen/src"),
        header_path: PathBuf::from("./codegen/include"),
    }
}

fn parameters() -> LayoutParameters {
    LayoutParameters {
        pointer_size: PointerSize::Bytes8,
        packing_field_offset: 7,
        size_is_default_offset: 12,
        specified_packing_field_offset: 13,
        packing_is_default_offset: 11,
    }
}

/// Flags of a definition with default packing and default size.
const DEFAULTS: u32 = (1 << 10) | (1 << 11);

fn definition(namespace: &str, name: &str) -> TypeDefinition {
    TypeDefinition {
        name: name.to_string(),
        namespace: namespace.to_string(),
        declaring_type: None,
        base_type: None,
        interfaces: vec![],
        generic_parameters: vec![],
        field_start: 0,
        field_count: 0,
        method_start: 0,
        method_count: 0,
        property_start: 0,
        property_count: 0,
        is_value_type: false,
        is_enum: false,
        is_interface: false,
        bitfield: DEFAULTS,
        explicit_size: None,
    }
}

fn field(name: &str, type_index: u32) -> FieldDefinition {
    FieldDefinition { name: name.to_string(), type_index, is_static: false }
}

// Type table of the sample image.
const T_INT: u32 = 0;
const T_STRING: u32 = 1;
const T_A: u32 = 2;
const T_B: u32 = 3;
const T_PARAM0: u32 = 5;
const T_LIST_INT: u32 = 6;
const T_LIST_STRING: u32 = 7;
const T_COLOR: u32 = 8;
const T_HIDDEN: u32 = 9;
const T_INNER: u32 = 10;
const T_ARRAY_INT: u32 = 11;
const T_R4: u32 = 12;

// Definitions of the sample image.
const A: u32 = 0;
const B: u32 = 1;
const LIST: u32 = 2;
const OUTER: u32 = 3;
const INNER: u32 = 4;
const COLOR: u32 = 5;
const HIDDEN: u32 = 6;
const DEEP: u32 = 7;
const USER: u32 = 8;

fn sample_tables() -> MetadataTables {
    let types = vec![
        TypeRecord::Primitive(Primitive::I4),
        TypeRecord::Primitive(Primitive::String),
        TypeRecord::Definition(A),
        TypeRecord::Definition(B),
        TypeRecord::Definition(LIST),
        TypeRecord::GenericParameter(0),
        TypeRecord::GenericInstance { definition_index: LIST, type_arguments: vec![T_INT] },
        TypeRecord::GenericInstance { definition_index: LIST, type_arguments: vec![T_STRING] },
        TypeRecord::Definition(COLOR),
        TypeRecord::Definition(HIDDEN),
        TypeRecord::Definition(INNER),
        TypeRecord::Array(T_INT),
        TypeRecord::Primitive(Primitive::R4),
    ];
    let fields = vec![
        // A
        field("count", T_INT),
        field("next", T_A),
        // List`1
        field("_item", T_PARAM0),
        field("_size", T_INT),
        // Color
        field("r", T_R4),
        field("g", T_R4),
        field("b", T_R4),
        field("a", T_R4),
        // User
        field("tint", T_COLOR),
        field("secret", T_HIDDEN),
        field("names", T_LIST_STRING),
        field("inner", T_INNER),
        field("values", T_ARRAY_INT),
        FieldDefinition { name: "Shared".to_string(), type_index: T_B, is_static: true },
    ];
    let methods = vec![
        MethodDefinition {
            name: "Add".to_string(),
            declaring_type: LIST,
            return_type: T_INT,
            parameter_start: 0,
            parameter_count: 1,
            is_static: false,
        },
        MethodDefinition {
            name: "Describe".to_string(),
            declaring_type: USER,
            return_type: T_STRING,
            parameter_start: 1,
            parameter_count: 2,
            is_static: false,
        },
    ];
    let parameters = vec![
        ParameterDefinition { name: "item".to_string(), type_index: T_PARAM0, default_value: None },
        ParameterDefinition { name: "who".to_string(), type_index: T_HIDDEN, default_value: None },
        ParameterDefinition {
            name: "times".to_string(),
            type_index: T_INT,
            default_value: Some("1".to_string()),
        },
    ];
    let properties = vec![PropertyDefinition {
        name: "Count".to_string(),
        type_index: T_INT,
        has_getter: true,
        has_setter: false,
    }];
    let method_specs = vec![
        MethodSpec { method_index: 0, class_arguments: Some(vec![T_INT]), method_arguments: None },
        MethodSpec { method_index: 0, class_arguments: Some(vec![T_STRING]), method_arguments: None },
        MethodSpec { method_index: 0, class_arguments: Some(vec![T_INT]), method_arguments: None },
        MethodSpec { method_index: 1, class_arguments: None, method_arguments: Some(vec![T_INT]) },
    ];
    let mut a = definition("Game", "A");
    a.base_type = Some(T_B);
    a.field_start = 0;
    a.field_count = 2;
    let b = definition("Game", "B");
    let mut list = definition("System.Collections.Generic", "List`1");
    list.generic_parameters = vec!["T".to_string()];
    list.field_start = 2;
    list.field_count = 2;
    list.method_start = 0;
    list.method_count = 1;
    list.property_start = 0;
    list.property_count = 1;
    let outer = definition("Game", "Outer");
    let mut inner = definition("", "Inner");
    inner.declaring_type = Some(OUTER);
    let mut color = definition("UnityEngine", "Color");
    color.is_value_type = true;
    color.field_start = 4;
    color.field_count = 4;
    let hidden = definition("Game", "Hidden");
    let mut deep = definition("", "Deep");
    deep.declaring_type = Some(INNER);
    let mut user = definition("Game", "User");
    user.field_start = 8;
    user.field_count = 6;
    user.method_start = 1;
    user.method_count = 1;
    MetadataTables {
        type_definitions: vec![a, b, list, outer, inner, color, hidden, deep, user],
        types,
        fields,
        methods,
        parameters,
        properties,
        method_specs,
    }
}

fn sample_metadata() -> Metadata {
    let mut md = Metadata::new(sample_tables(), parameters()).expect("sound tables");
    assert_eq!(md.blacklist_type("Game.Hidden"), Some(HIDDEN));
    md
}

fn collection() -> ContextCollection {
    ContextCollection::new(sample_metadata(), config())
}

fn def(d: u32) -> TypeTag {
    TypeTag::DefinitionRef(d)
}

fn inst(d: u32, args: Vec<u32>) -> TypeTag {
    TypeTag::GenericInstantiation { definition_index: d, type_arguments: args }
}

#[test]
fn creating_a_tag_twice_gives_the_same_node() {
    let mut cc = collection();
    let first = cc.make_from(&def(A));
    let count = cc.len();
    let second = cc.make_from(&def(A));
    assert_eq!(first, Some(0));
    assert_eq!(first, second);
    assert_eq!(cc.len(), count);
    assert_eq!(count, 1);
}

#[test]
fn registry_holds_one_node_per_tag_after_all_passes() {
    let mut cc = collection();
    make_top_level_types(&mut cc);
    make_nested_types(&mut cc);
    make_top_level_types(&mut cc);
    assert_eq!(make_generic_types(&mut cc), Ok(()));
    assert_eq!(make_generic_types(&mut cc), Ok(()));
    for i in 0..cc.len() {
        for j in 0..cc.len() {
            if i != j {
                assert_ne!(cc.get(i).self_tag, cc.get(j).self_tag);
            }
        }
    }
    // Eight definitions that are not blacklisted, two instantiations.
    assert_eq!(cc.len(), 10);
}

#[test]
fn generic_instantiations_are_distinct_by_arguments() {
    let mut cc = collection();
    make_top_level_types(&mut cc);
    let of_int = cc.make_generic_from(0).expect("definition exists");
    let of_string = cc.make_generic_from(1).expect("definition exists");
    let of_int_again = cc.make_generic_from(2).expect("definition exists");
    assert!(of_int.is_some());
    assert!(of_string.is_some());
    assert_ne!(of_int, of_string);
    assert_eq!(of_int, of_int_again);
    let a = cc.get(of_int.unwrap());
    let b = cc.get(of_string.unwrap());
    assert_eq!(a.self_tag, inst(LIST, vec![T_INT]));
    assert_eq!(b.self_tag, inst(LIST, vec![T_STRING]));
    // Both trace back to the generic definition.
    assert_eq!(a.definition, Some(LIST));
    assert_eq!(b.definition, Some(LIST));
    assert_eq!(a.context_root, def(LIST));
    assert_eq!(b.context_root, def(LIST));
    assert_eq!(a.generic_arguments, Some(vec![T_INT]));
    assert_eq!(b.generic_arguments, Some(vec![T_STRING]));
}

#[test]
fn generic_instantiations_have_independent_layouts() {
    let mut cc = collection();
    make_top_level_types(&mut cc);
    let of_int = cc.make_generic_from(0).unwrap().unwrap();
    let of_string = cc.make_generic_from(1).unwrap().unwrap();
    assert_eq!(fill_types(&mut cc), Ok(()));
    let a = cc.get(of_int);
    let b = cc.get(of_string);
    // Header of 16 bytes, then the item, then the size.
    assert_eq!(a.fields[0].offset, 16);
    assert_eq!(a.fields[0].size, 4);
    assert_eq!(a.fields[1].offset, 20);
    assert_eq!(a.size, 24);
    assert_eq!(b.fields[0].offset, 16);
    assert_eq!(b.fields[0].size, 8);
    assert_eq!(b.fields[1].offset, 24);
    assert_eq!(b.size, 32);
    assert_eq!(a.fields[0].ty.resolved, ResolvedType::Primitive(Primitive::I4));
    assert_eq!(b.fields[0].ty.resolved, ResolvedType::Primitive(Primitive::String));
}

#[test]
fn generic_instantiation_needs_its_definition() {
    let mut cc = collection();
    assert_eq!(cc.make_generic_from(0), Err(GenerateError::MissingGenericDefinition(LIST)));
    assert_eq!(cc.len(), 0);
    // A record without class arguments asks for nothing.
    assert_eq!(cc.make_generic_from(3), Ok(None));
}

#[test]
fn nested_type_found_both_ways_is_one_node() {
    let mut top_down = collection();
    let outer = top_down.make_from(&def(OUTER));
    assert_eq!(outer, Some(0));
    // Outer, Inner and Deep were created with the parent.
    assert_eq!(top_down.len(), 3);
    let inner = top_down.make_nested_from(INNER);
    assert_eq!(inner, Some(1));
    assert_eq!(top_down.len(), 3);
    assert_eq!(top_down.find(&def(DEEP)), Some(2));

    let mut alone = collection();
    let inner_first = alone.make_nested_from(INNER);
    assert_eq!(inner_first, Some(0));
    assert_eq!(alone.make_from(&def(OUTER)), Some(1));
    // Only Outer and Deep were missing.
    assert_eq!(alone.len(), 3);
    assert_eq!(alone.find(&def(INNER)), Some(0));
    let node = alone.get(0);
    assert_eq!(node.context_root, def(OUTER));
    assert_eq!(node.parent, Some(def(OUTER)));
    assert_eq!(node.name, "Inner");
    assert_eq!(alone.get(1).nested_types, vec![def(INNER)]);
}

#[test]
fn blacklisted_definition_never_gets_a_node() {
    let mut cc = collection();
    assert_eq!(cc.make_from(&def(HIDDEN)), None);
    assert_eq!(cc.make_nested_from(HIDDEN), None);
    make_top_level_types(&mut cc);
    make_nested_types(&mut cc);
    assert_eq!(cc.find(&def(HIDDEN)), None);
    assert_eq!(fill_types(&mut cc), Ok(()));
    for i in 0..cc.len() {
        assert_ne!(cc.get(i).definition, Some(HIDDEN));
        let plan = emission_plan(&cc, &cc.get(i).context_root.clone());
        for h in plan.includes.iter().chain(&plan.forward_declarations).chain(&plan.definitions) {
            assert_ne!(cc.get(*h).definition, Some(HIDDEN));
        }
    }
}

#[test]
fn references_to_blacklisted_types_become_placeholders() {
    let mut cc = collection();
    make_top_level_types(&mut cc);
    assert_eq!(fill_types(&mut cc), Ok(()));
    let user = cc.get(cc.find(&def(USER)).unwrap());
    assert!(user.filled);
    assert_eq!(user.fields[1].name, "secret");
    assert_eq!(user.fields[1].ty.resolved, ResolvedType::Opaque);
    assert_eq!(user.methods[0].parameters[0].ty.resolved, ResolvedType::Opaque);
    assert_eq!(user.methods[0].parameters[1].def_value, Some("1".to_string()));
    // Without a node for the instantiation the generic definition stands in.
    assert_eq!(user.fields[2].ty.resolved, ResolvedType::Node(def(LIST)));
    // No handler has brought in the array root.
    assert_eq!(user.fields[4].ty.resolved, ResolvedType::Opaque);
}

#[test]
fn every_reference_resolves_after_the_fill_pass() {
    let mut cc = collection();
    make_top_level_types(&mut cc);
    make_nested_types(&mut cc);
    assert_eq!(make_generic_types(&mut cc), Ok(()));
    assert_eq!(fill_types(&mut cc), Ok(()));
    for i in 0..cc.len() {
        let n = cc.get(i);
        assert!(n.filled);
        let mut refs = vec![];
        refs.extend(n.base.iter().map(|r| r.resolved.clone()));
        refs.extend(n.interfaces.iter().map(|r| r.resolved.clone()));
        refs.extend(n.fields.iter().map(|f| f.ty.resolved.clone()));
        for m in &n.methods {
            refs.push(m.return_type.resolved.clone());
            refs.extend(m.parameters.iter().map(|p| p.ty.resolved.clone()));
        }
        refs.extend(n.properties.iter().map(|p| p.ty.resolved.clone()));
        for r in refs {
            if let ResolvedType::Node(tag) = r {
                assert!(cc.find(&tag).is_some());
            }
        }
    }
    let user = cc.get(cc.find(&def(USER)).unwrap());
    assert_eq!(user.fields[2].ty.resolved, ResolvedType::Node(inst(LIST, vec![T_STRING])));
}

#[test]
fn base_declared_later_is_resolved_and_ordered_first() {
    let mut cc = collection();
    make_top_level_types(&mut cc);
    assert_eq!(fill_types(&mut cc), Ok(()));
    let a = cc.find(&def(A)).unwrap();
    let b = cc.find(&def(B)).unwrap();
    assert!(a < b);
    let node = cc.get(a);
    assert_eq!(node.base.as_ref().map(|r| r.resolved.clone()), Some(ResolvedType::Node(def(B))));
    let plan = emission_plan(&cc, &def(A));
    // The unit of A takes B in full before it defines A.
    assert_eq!(plan.includes, vec![b]);
    assert_eq!(plan.definitions, vec![a]);
    // A mentions itself through `next`.
    assert_eq!(plan.forward_declarations, vec![a]);
}

#[test]
fn nested_types_are_defined_after_their_owner() {
    let mut cc = collection();
    // Deep before Inner before Outer in the registry.
    assert_eq!(cc.make_nested_from(DEEP), Some(0));
    assert_eq!(cc.make_nested_from(INNER), Some(1));
    assert_eq!(cc.make_from(&def(OUTER)), Some(2));
    assert_eq!(fill_types(&mut cc), Ok(()));
    let plan = emission_plan(&cc, &def(OUTER));
    assert_eq!(plan.definitions, vec![2, 1, 0]);
    assert_eq!(plan.includes, Vec::<usize>::new());
    assert_eq!(plan.forward_declarations, vec![1, 2]);
}

#[test]
fn fill_is_done_once() {
    let mut cc = collection();
    assert_eq!(cc.fill(&def(A)), Ok(FillOutcome::Missing));
    cc.make_from(&def(A));
    cc.make_from(&def(B));
    assert_eq!(cc.fill(&def(A)), Ok(FillOutcome::Filled));
    assert_eq!(cc.fill(&def(A)), Ok(FillOutcome::AlreadyFilled));
    let a = cc.get(0);
    assert_eq!(a.fields.len(), 2);
    assert_eq!(a.fields[0].offset, 16);
    assert_eq!(a.fields[0].size, 4);
    assert_eq!(a.fields[1].offset, 24);
    assert_eq!(a.fields[1].size, 8);
    assert_eq!(a.size, 32);
    assert_eq!(a.alignment, 8);
    assert_eq!(a.fields[1].ty.resolved, ResolvedType::Node(def(A)));
    assert_eq!(a.fields[0].brief_comment, Some("count".to_string()));
}

#[test]
fn value_types_are_embedded_by_value() {
    let mut cc = collection();
    make_top_level_types(&mut cc);
    assert_eq!(fill_types(&mut cc), Ok(()));
    let color = cc.get(cc.find(&def(COLOR)).unwrap());
    assert!(color.is_value_type);
    assert_eq!(color.size, 16);
    assert_eq!(color.alignment, 4);
    assert_eq!(color.fields.iter().map(|f| f.offset).collect::<Vec<_>>(), vec![0, 4, 8, 12]);
    let user = cc.get(cc.find(&def(USER)).unwrap());
    // tint: 16 bytes by value behind the header.
    assert_eq!(user.fields[0].offset, 16);
    assert_eq!(user.fields[0].size, 16);
    // secret: a pointer.
    assert_eq!(user.fields[1].offset, 32);
    assert_eq!(user.fields[1].size, 8);
    // the static field has no place.
    assert!(user.fields[5].is_static);
    assert_eq!(user.fields[5].offset, 0);
    assert_eq!(user.fields[5].size, 0);
    assert_eq!(user.size, 64);
    let plan = emission_plan(&cc, &def(USER));
    // Color is needed in full, the rest by name.
    assert_eq!(plan.includes, vec![cc.find(&def(COLOR)).unwrap()]);
}

#[test]
fn handler_claims_a_node_once() {
    let mut cc = collection();
    assert_eq!(cc.register_handler(SpecialKind::ObjectRoot, &def(A)), HandlerOutcome::MissingNode);
    cc.make_from(&def(A));
    cc.make_from(&def(B));
    assert_eq!(cc.register_handler(SpecialKind::ObjectRoot, &def(A)), HandlerOutcome::Applied);
    assert_eq!(
        cc.register_handler(SpecialKind::ValueTypeRoot, &def(A)),
        HandlerOutcome::AlreadyClaimed
    );
    let wrapper = cc.find(&TypeTag::Grouped(SpecialKind::ObjectRoot)).expect("wrapper node");
    assert_eq!(cc.get(wrapper).name, "ObjectWrapper");
    assert_eq!(cc.find(&TypeTag::Grouped(SpecialKind::ValueTypeRoot)), None);
    assert_eq!(cc.fill(&def(A)), Ok(FillOutcome::Filled));
    let a = cc.get(0);
    assert_eq!(a.handler, Some(SpecialKind::ObjectRoot));
    // The hand-authored root takes the place of the base type.
    assert!(a.base.is_none());
    let plan = emission_plan(&cc, &def(A));
    assert_eq!(plan.includes, vec![wrapper]);
}

#[test]
fn array_resolves_to_the_array_root_once_it_exists() {
    let mut cc = collection();
    make_top_level_types(&mut cc);
    assert!(cc.make_from(&TypeTag::Grouped(SpecialKind::ArrayRoot)).is_some());
    assert_eq!(fill_types(&mut cc), Ok(()));
    let user = cc.get(cc.find(&def(USER)).unwrap());
    assert_eq!(
        user.fields[4].ty.resolved,
        ResolvedType::Node(TypeTag::Grouped(SpecialKind::ArrayRoot))
    );
}

#[test]
fn nested_types_are_placed_in_their_owner() {
    let mut cc = collection();
    cc.make_from(&def(OUTER));
    assert!(!cc.fill_nested_types(&def(B)));
    assert!(cc.fill_nested_types(&def(OUTER)));
    assert!(cc.fill_nested_types(&def(INNER)));
    let inner = cc.get(cc.find(&def(INNER)).unwrap());
    assert_eq!(inner.enclosing, vec!["Outer".to_string()]);
    assert!(inner.declared_in_parent);
    let deep = cc.get(cc.find(&def(DEEP)).unwrap());
    assert_eq!(deep.enclosing, vec!["Outer".to_string(), "Inner".to_string()]);
    let outer = cc.get(cc.find(&def(OUTER)).unwrap());
    assert!(outer.enclosing.is_empty());
    assert!(!outer.declared_in_parent);
}

#[test]
fn method_specialization_is_added_once() {
    let mut cc = collection();
    make_top_level_types(&mut cc);
    assert!(!cc.fill_generic_method_inst(0));
    assert!(cc.fill_generic_method_inst(3));
    assert!(!cc.fill_generic_method_inst(3));
    let user = cc.get(cc.find(&def(USER)).unwrap());
    assert_eq!(user.method_specializations.len(), 1);
    assert_eq!(user.method_specializations[0].method_index, 1);
    assert_eq!(
        user.method_specializations[0].arguments[0].resolved,
        ResolvedType::Primitive(Primitive::I4)
    );
}

#[test]
fn malformed_tables_are_refused_with_the_first_fault() {
    let mut t = sample_tables();
    t.fields[3].type_index = 99;
    assert_eq!(Metadata::new(t, parameters()).err(), Some(MetadataError::Field(3)));
    let mut t = sample_tables();
    t.types.push(TypeRecord::Definition(50));
    t.fields[3].type_index = 99;
    assert_eq!(Metadata::new(t, parameters()).err(), Some(MetadataError::TypeRecord(13)));
    let mut t = sample_tables();
    t.type_definitions[OUTER as usize].declaring_type = Some(DEEP);
    assert_eq!(Metadata::new(t, parameters()).err(), Some(MetadataError::NestingCycle(3)));
    let mut t = sample_tables();
    t.type_definitions[1].method_count = 7;
    assert_eq!(Metadata::new(t, parameters()).err(), Some(MetadataError::Definition(1)));
    let mut t = sample_tables();
    t.methods[1].parameter_count = 3;
    assert_eq!(Metadata::new(t, parameters()).err(), Some(MetadataError::Method(1)));
    let mut t = sample_tables();
    t.parameters[0].type_index = 13;
    assert_eq!(Metadata::new(t, parameters()).err(), Some(MetadataError::Parameter(0)));
    let mut t = sample_tables();
    t.properties[0].type_index = 13;
    assert_eq!(Metadata::new(t, parameters()).err(), Some(MetadataError::Property(0)));
    let mut t = sample_tables();
    t.method_specs[1].method_index = 2;
    assert_eq!(Metadata::new(t, parameters()).err(), Some(MetadataError::MethodSpec(1)));
    let mut p = parameters();
    p.packing_field_offset = 0;
    assert_eq!(Metadata::new(sample_tables(), p).err(), Some(MetadataError::LayoutParameters));
}

#[test]
fn full_names_and_blacklisting_by_name() {
    let mut md = Metadata::new(sample_tables(), parameters()).unwrap();
    assert_eq!(md.full_name(A, true), "Game.A");
    assert_eq!(md.full_name(A, false), "A");
    assert_eq!(md.full_name(DEEP, true), "Game.Outer::Inner::Deep");
    assert_eq!(md.full_name(DEEP, false), "Outer::Inner::Deep");
    assert_eq!(md.full_name(LIST, true), "System.Collections.Generic.List`1");
    assert_eq!(md.blacklist_type("Game.Outer::Inner"), Some(INNER));
    assert!(md.is_blacklisted(INNER));
    assert!(!md.is_blacklisted(OUTER));
    assert_eq!(md.blacklist_type("Game.Missing"), None);
    assert_eq!(md.blacklist_type("Inner"), None);
    assert!(!md.is_blacklisted(99));
    assert_eq!(md.root(DEEP), OUTER);
    assert_eq!(md.root(A), A);
    assert_eq!(md.nested_types(OUTER), &vec![INNER]);
    assert!(md.encloses(OUTER, DEEP));
    assert!(!md.encloses(DEEP, OUTER));
    assert!(md.encloses(A, A));
}
