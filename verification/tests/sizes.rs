use cordl::generate::config::GenerationConfig;
use cordl::generate::context_collection::fill::FillOutcome;
use cordl::generate::context_collection::ContextCollection;
use cordl::generate::emit::plan::emission_plan;
use cordl::generate::layout::LayoutError;
use cordl::generate::metadata::{
    FieldDefinition, LayoutParameters, Metadata, MetadataTables, PointerSize, Primitive,
    TypeDefinition, TypeRecord,
};
use cordl::generate::offsets::instance_layout;
use cordl::generate::passes::{fill_types, make_top_level_types};
use cordl::generate::type_tag::TypeTag;
use std::path::PathBuf;

fn parameters(pointer_size: PointerSize) -> LayoutParameters {
    LayoutParameters {
        pointer_size,
        packing_field_offset: 7,
        size_is_default_offset: 12,
        specified_packing_field_offset: 13,
        packing_is_default_offset: 11,
    }
}

const DEFAULTS: u32 = (1 << 10) | (1 << 11);

fn definition(name: &str, is_value_type: bool, field_start: u32, field_count: u32) -> TypeDefinition {
    TypeDefinition {
        name: name.to_string(),
        namespace: "Sizes".to_string(),
        declaring_type: None,
        base_type: None,
        interfaces: vec![],
        generic_parameters: vec![],
        field_start,
        field_count,
        method_start: 0,
        method_count: 0,
        property_start: 0,
        property_count: 0,
        is_value_type,
        is_enum: false,
        is_interface: false,
        bitfield: DEFAULTS,
        explicit_size: None,
    }
}

fn field(name: &str, type_index: u32) -> FieldDefinition {
    FieldDefinition { name: name.to_string(), type_index, is_static: false }
}

fn collection(
    type_definitions: Vec<TypeDefinition>,
    types: Vec<TypeRecord>,
    fields: Vec<FieldDefinition>,
    pointer_size: PointerSize,
) -> ContextCollection {
    let tables = MetadataTables {
        type_definitions,
        types,
        fields,
        methods: vec![],
        parameters: vec![],
        properties: vec![],
        method_specs: vec![],
    };
    let md = Metadata::new(tables, parameters(pointer_size)).expect("sound tables");
    let config = GenerationConfig {
        source_path: PathBuf::from("./codegen/src"),
        header_path: PathBuf::from("./codegen/include"),
    };
    let mut cc = ContextCollection::new(md, config);
    make_top_level_types(&mut cc);
    cc
}

fn def(d: u32) -> TypeTag {
    TypeTag::DefinitionRef(d)
}

#[test]
fn value_type_that_embeds_itself_is_refused() {
    let mut cc = collection(
        vec![definition("Loop", true, 0, 1), definition("Plain", false, 0, 0)],
        vec![TypeRecord::Definition(0)],
        vec![field("again", 0)],
        PointerSize::Bytes8,
    );
    assert_eq!(cc.fill(&def(0)), Err(LayoutError::TooDeep));
    assert!(!cc.get(0).filled);
    assert_eq!(cc.fill(&def(1)), Ok(FillOutcome::Filled));
    // The pass stops at the first type that cannot be laid out.
    assert_eq!(fill_types(&mut cc), Err(LayoutError::TooDeep));
    assert!(!cc.get(0).filled);
}

#[test]
fn class_that_derives_from_itself_is_refused() {
    let mut looped = definition("Loop", false, 0, 0);
    looped.base_type = Some(0);
    let mut cc = collection(
        vec![looped],
        vec![TypeRecord::Definition(0)],
        vec![],
        PointerSize::Bytes8,
    );
    assert_eq!(cc.fill(&def(0)), Err(LayoutError::TooDeep));
}

#[test]
fn declared_size_takes_the_place_of_the_computed_one() {
    let mut sized = definition("Sized", true, 0, 1);
    // The size flag is off: the declared size holds.
    sized.bitfield = 1 << 10;
    sized.explicit_size = Some(40);
    let mut by_default = definition("ByDefault", true, 0, 1);
    by_default.explicit_size = Some(40);
    let holder = definition("Holder", false, 1, 2);
    let mut cc = collection(
        vec![sized, by_default, holder],
        vec![
            TypeRecord::Primitive(Primitive::I4),
            TypeRecord::Definition(0),
            TypeRecord::Definition(1),
        ],
        vec![field("x", 0), field("big", 1), field("small", 2)],
        PointerSize::Bytes8,
    );
    assert_eq!(fill_types(&mut cc), Ok(()));
    assert_eq!(cc.get(0).size, 40);
    assert_eq!(cc.get(1).size, 4);
    let holder = cc.get(2);
    assert_eq!(holder.fields[0].offset, 16);
    assert_eq!(holder.fields[0].size, 40);
    assert_eq!(holder.fields[1].offset, 56);
    assert_eq!(holder.fields[1].size, 4);
    assert_eq!(holder.size, 64);
}

#[test]
fn packing_of_a_definition_caps_its_fields() {
    let mut packed = definition("Packed", true, 0, 3);
    // Code 1 at position 7: a packing of one byte, not the default.
    packed.bitfield = (1 << 6) | (1 << 11);
    let natural = definition("Natural", true, 0, 3);
    let mut cc = collection(
        vec![packed, natural],
        vec![
            TypeRecord::Primitive(Primitive::U1),
            TypeRecord::Primitive(Primitive::I4),
            TypeRecord::Primitive(Primitive::I8),
        ],
        vec![field("a", 0), field("b", 1), field("c", 2)],
        PointerSize::Bytes8,
    );
    assert_eq!(fill_types(&mut cc), Ok(()));
    let offsets = |i: usize| cc.get(i).fields.iter().map(|f| f.offset).collect::<Vec<_>>();
    assert_eq!(offsets(0), vec![0, 1, 5]);
    assert_eq!(cc.get(0).size, 13);
    assert_eq!(cc.get(0).alignment, 1);
    assert_eq!(offsets(1), vec![0, 4, 8]);
    assert_eq!(cc.get(1).size, 16);
    assert_eq!(cc.get(1).alignment, 8);
}

#[test]
fn pointer_width_sets_the_header_and_the_references() {
    let build = |pointer_size| {
        let base = definition("Base", false, 0, 1);
        let mut derived = definition("Derived", false, 1, 1);
        derived.base_type = Some(1);
        collection(
            vec![base, derived],
            vec![
                TypeRecord::Primitive(Primitive::Object),
                TypeRecord::Definition(0),
                TypeRecord::Primitive(Primitive::U1),
            ],
            vec![field("other", 0), field("flag", 2)],
            pointer_size,
        )
    };
    let mut wide = build(PointerSize::Bytes8);
    assert_eq!(fill_types(&mut wide), Ok(()));
    assert_eq!(wide.get(0).fields[0].offset, 16);
    assert_eq!(wide.get(0).size, 24);
    // Inherited fields come first.
    assert_eq!(wide.get(1).fields[0].offset, 24);
    assert_eq!(wide.get(1).size, 32);
    let mut narrow = build(PointerSize::Bytes4);
    assert_eq!(fill_types(&mut narrow), Ok(()));
    assert_eq!(narrow.get(0).fields[0].offset, 8);
    assert_eq!(narrow.get(0).fields[0].size, 4);
    assert_eq!(narrow.get(0).size, 12);
    assert_eq!(narrow.get(1).fields[0].offset, 12);
    assert_eq!(narrow.get(1).size, 16);
    let layout = instance_layout(narrow.get_metadata(), 1, &vec![]).unwrap();
    assert_eq!(layout.layout.offsets, vec![12]);
    assert_eq!(layout.extent.actual_size, 13);
    assert_eq!(layout.extent.class_size, 16);
}

#[test]
fn needs_that_run_in_a_circle_still_give_every_definition_once() {
    // The owner holds by value the type that is nested in it.
    let outer = definition("Outer", false, 0, 1);
    let mut inner = definition("Inner", true, 1, 1);
    inner.declaring_type = Some(0);
    let mut user = definition("User", false, 0, 0);
    user.base_type = Some(2);
    let mut cc = collection(
        vec![outer, inner, user],
        vec![
            TypeRecord::Definition(1),
            TypeRecord::Primitive(Primitive::I4),
            TypeRecord::Definition(0),
        ],
        vec![field("held", 0), field("x", 1)],
        PointerSize::Bytes8,
    );
    assert_eq!(fill_types(&mut cc), Ok(()));
    let plan = emission_plan(&cc, &def(0));
    // Neither can go first by its needs, so the first handle does.
    assert_eq!(plan.definitions, vec![0, 1]);
    assert_eq!(plan.includes, Vec::<usize>::new());
    assert_eq!(plan.forward_declarations, vec![0, 1]);
    let plan = emission_plan(&cc, &def(2));
    assert_eq!(plan.includes, vec![0]);
    assert_eq!(plan.definitions, vec![2]);
}
