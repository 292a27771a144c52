//! The metadata facade: the decoded tables behind index-based lookups, checked
//! once for integrity, with the relations derived from them.
use vstd::prelude::*;

verus! {

/// Width of a native pointer on the target.
#[derive(Clone, Copy, Debug, PartialEq, Eq, Structural)]
pub enum PointerSize {
    Bytes4,
    Bytes8,
}

/// What varies between builds of the metadata format: the pointer width and
/// the positions, counted from 1, of four items in a definition's packed
/// layout flags.
#[derive(Clone, Copy, Debug, PartialEq, Eq, Structural)]
pub struct LayoutParameters {
    pub pointer_size: PointerSize,
    /// Where the four bits of the packing size start.
    pub packing_field_offset: u8,
    /// The flag that says the declared size is the default one.
    pub size_is_default_offset: u8,
    /// Where the four bits of the packing size, as written in the source, start.
    pub specified_packing_field_offset: u8,
    /// The flag that says the packing size is the default one.
    pub packing_is_default_offset: u8,
}

/// Each position lies inside the 32 bits of the flags, a four-bit item with
/// all its bits.
pub open spec fn parameters_ok(p: LayoutParameters) -> bool {
    &&& 1 <= p.packing_field_offset <= 29
    &&& 1 <= p.size_is_default_offset <= 32
    &&& 1 <= p.specified_packing_field_offset <= 29
    &&& 1 <= p.packing_is_default_offset <= 32
}

/// The built-in scalar and reference kinds of the runtime.
#[derive(Clone, Copy, Debug, PartialEq, Eq, Structural)]
pub enum Primitive {
    Void,
    Boolean,
    Char,
    I1,
    U1,
    I2,
    U2,
    I4,
    U4,
    I8,
    U8,
    R4,
    R8,
    IntPtr,
    UIntPtr,
    String,
    Object,
}

/// One entry of the type table.
#[derive(Clone, Debug, PartialEq, Eq)]
pub enum TypeRecord {
    Primitive(Primitive),
    /// A class, struct, interface or enum, by definition index.
    Definition(u32),
    /// A generic definition applied to arguments, each a type index.
    GenericInstance { definition_index: u32, type_arguments: Vec<u32> },
    /// A generic parameter of the enclosing definition, by position.
    GenericParameter(u32),
    /// An array of the element type at the given type index.
    Array(u32),
}

/// One class, struct, interface or enum of the metadata image.
#[derive(Clone, Debug)]
pub struct TypeDefinition {
    pub name: String,
    pub namespace: String,
    /// The enclosing definition; `None` for a top-level type.
    pub declaring_type: Option<u32>,
    /// The base type, as a type index.
    pub base_type: Option<u32>,
    /// The implemented interfaces, as type indices.
    pub interfaces: Vec<u32>,
    pub generic_parameters: Vec<String>,
    pub field_start: u32,
    pub field_count: u32,
    pub method_start: u32,
    pub method_count: u32,
    pub property_start: u32,
    pub property_count: u32,
    pub is_value_type: bool,
    pub is_enum: bool,
    pub is_interface: bool,
    /// The packed layout flags of the definition.
    pub bitfield: u32,
    /// The instance size that the image declares, if it declares one.
    pub explicit_size: Option<u32>,
}

#[derive(Clone, Debug)]
pub struct FieldDefinition {
    pub name: String,
    pub type_index: u32,
    pub is_static: bool,
}

#[derive(Clone, Debug)]
pub struct MethodDefinition {
    pub name: String,
    pub declaring_type: u32,
    pub return_type: u32,
    pub parameter_start: u32,
    pub parameter_count: u32,
    pub is_static: bool,
}

#[derive(Clone, Debug)]
pub struct ParameterDefinition {
    pub name: String,
    pub type_index: u32,
    pub default_value: Option<String>,
}

#[derive(Clone, Debug)]
pub struct PropertyDefinition {
    pub name: String,
    pub type_index: u32,
    pub has_getter: bool,
    pub has_setter: bool,
}

/// A generic instantiation record: a method of a generic definition, with the
/// concrete arguments of its class and of the method itself.
#[derive(Clone, Debug)]
pub struct MethodSpec {
    pub method_index: u32,
    pub class_arguments: Option<Vec<u32>>,
    pub method_arguments: Option<Vec<u32>>,
}

/// The decoded tables, as the decoder hands them over.
#[derive(Clone, Debug)]
pub struct MetadataTables {
    pub type_definitions: Vec<TypeDefinition>,
    pub types: Vec<TypeRecord>,
    pub fields: Vec<FieldDefinition>,
    pub methods: Vec<MethodDefinition>,
    pub parameters: Vec<ParameterDefinition>,
    pub properties: Vec<PropertyDefinition>,
    pub method_specs: Vec<MethodSpec>,
}

/// Why a set of tables was refused, with the first offending record.
#[derive(Clone, Copy, Debug, PartialEq, Eq, Structural)]
pub enum MetadataError {
    LayoutParameters,
    TooManyRecords,
    TypeRecord(usize),
    Definition(usize),
    Field(usize),
    Method(usize),
    Parameter(usize),
    Property(usize),
    MethodSpec(usize),
    NestingCycle(usize),
}

pub open spec fn all_below(v: Seq<u32>, bound: int) -> bool {
    forall|k: int| 0 <= k < v.len() ==> #[trigger] v[k] < bound
}

pub open spec fn option_below(o: Option<u32>, bound: int) -> bool {
    o matches Some(i) ==> i < bound
}

pub open spec fn arguments_below(o: Option<Vec<u32>>, bound: int) -> bool {
    o matches Some(v) ==> all_below(v@, bound)
}

pub open spec fn type_record_ok(r: TypeRecord, definitions: int, types: int) -> bool {
    match r {
        TypeRecord::Primitive(_) => true,
        TypeRecord::Definition(d) => d < definitions,
        TypeRecord::GenericInstance { definition_index, type_arguments } => definition_index
            < definitions && all_below(type_arguments@, types),
        TypeRecord::GenericParameter(_) => true,
        TypeRecord::Array(e) => e < types,
    }
}

pub open spec fn definition_ok(d: TypeDefinition, t: MetadataTables) -> bool {
    &&& option_below(d.declaring_type, t.type_definitions.len() as int)
    &&& option_below(d.base_type, t.types.len() as int)
    &&& all_below(d.interfaces@, t.types.len() as int)
    &&& d.field_start + d.field_count <= t.fields.len()
    &&& d.method_start + d.method_count <= t.methods.len()
    &&& d.property_start + d.property_count <= t.properties.len()
}

pub open spec fn method_ok(m: MethodDefinition, t: MetadataTables) -> bool {
    &&& m.declaring_type < t.type_definitions.len()
    &&& m.return_type < t.types.len()
    &&& m.parameter_start + m.parameter_count <= t.parameters.len()
}

pub open spec fn method_spec_ok(s: MethodSpec, t: MetadataTables) -> bool {
    &&& s.method_index < t.methods.len()
    &&& arguments_below(s.class_arguments, t.types.len() as int)
    &&& arguments_below(s.method_arguments, t.types.len() as int)
}

/// The outermost declaring type of definition `i`, if the chain of declaring
/// types ends within `fuel` links.
pub open spec fn nesting_root(defs: Seq<TypeDefinition>, i: int, fuel: nat) -> Option<int>
    decreases fuel,
{
    if !(0 <= i < defs.len()) {
        None
    } else {
        match defs[i].declaring_type {
            None => Some(i),
            Some(p) => if fuel == 0 {
                None
            } else {
                nesting_root(defs, p as int, (fuel - 1) as nat)
            },
        }
    }
}

/// Definition `d` is `c` itself or encloses it, at a nesting distance of at
/// most `fuel`.
pub open spec fn encloses_within(defs: Seq<TypeDefinition>, d: int, c: int, fuel: nat) -> bool
    decreases fuel,
{
    c == d || (0 <= c < defs.len() && defs[c].declaring_type is Some && fuel > 0
        && encloses_within(defs, d, defs[c].declaring_type.unwrap() as int, (fuel - 1) as nat))
}

/// The definition is top-level and has the given namespace and name.
pub open spec fn is_named(d: TypeDefinition, namespace: Seq<char>, name: Seq<char>) -> bool {
    d.declaring_type is None && d.namespace@ == namespace && d.name@ == name
}

/// Every table can be indexed by `u32`.
pub open spec fn sizes_ok(t: MetadataTables) -> bool {
    &&& t.type_definitions.len() <= u32::MAX
    &&& t.types.len() <= u32::MAX
    &&& t.fields.len() <= u32::MAX
    &&& t.methods.len() <= u32::MAX
    &&& t.parameters.len() <= u32::MAX
    &&& t.properties.len() <= u32::MAX
    &&& t.method_specs.len() <= u32::MAX
}

pub open spec fn types_ok_upto(t: MetadataTables, n: int) -> bool {
    forall|i: int|
        0 <= i < n ==> type_record_ok(
            #[trigger] t.types[i],
            t.type_definitions.len() as int,
            t.types.len() as int,
        )
}

pub open spec fn definitions_ok_upto(t: MetadataTables, n: int) -> bool {
    forall|i: int| 0 <= i < n ==> definition_ok(#[trigger] t.type_definitions[i], t)
}

pub open spec fn fields_ok_upto(t: MetadataTables, n: int) -> bool {
    forall|i: int| 0 <= i < n ==> (#[trigger] t.fields[i]).type_index < t.types.len()
}

pub open spec fn methods_ok_upto(t: MetadataTables, n: int) -> bool {
    forall|i: int| 0 <= i < n ==> method_ok(#[trigger] t.methods[i], t)
}

pub open spec fn parameters_ok_upto(t: MetadataTables, n: int) -> bool {
    forall|i: int| 0 <= i < n ==> (#[trigger] t.parameters[i]).type_index < t.types.len()
}

pub open spec fn properties_ok_upto(t: MetadataTables, n: int) -> bool {
    forall|i: int| 0 <= i < n ==> (#[trigger] t.properties[i]).type_index < t.types.len()
}

pub open spec fn method_specs_ok_upto(t: MetadataTables, n: int) -> bool {
    forall|i: int| 0 <= i < n ==> method_spec_ok(#[trigger] t.method_specs[i], t)
}

pub open spec fn is_rooted(t: MetadataTables, i: int) -> bool {
    nesting_root(t.type_definitions@, i, t.type_definitions.len() as nat) is Some
}

pub open spec fn nesting_ok_upto(t: MetadataTables, n: int) -> bool {
    forall|i: int| 0 <= i < n ==> #[trigger] is_rooted(t, i)
}

/// Every index that a record holds is inside the table it points into, and
/// no type is nested in itself.
pub open spec fn tables_ok(t: MetadataTables) -> bool {
    &&& sizes_ok(t)
    &&& types_ok_upto(t, t.types.len() as int)
    &&& definitions_ok_upto(t, t.type_definitions.len() as int)
    &&& fields_ok_upto(t, t.fields.len() as int)
    &&& methods_ok_upto(t, t.methods.len() as int)
    &&& parameters_ok_upto(t, t.parameters.len() as int)
    &&& properties_ok_upto(t, t.properties.len() as int)
    &&& method_specs_ok_upto(t, t.method_specs.len() as int)
    &&& nesting_ok_upto(t, t.type_definitions.len() as int)
}

/// `e` names the first check that the tables fail, and the first record that
/// fails it.
pub open spec fn is_fault(t: MetadataTables, e: MetadataError) -> bool {
    match e {
        MetadataError::LayoutParameters => false,
        MetadataError::TooManyRecords => !sizes_ok(t),
        MetadataError::TypeRecord(i) => {
            &&& sizes_ok(t)
            &&& i < t.types.len()
            &&& types_ok_upto(t, i as int)
            &&& !type_record_ok(t.types[i as int], t.type_definitions.len() as int, t.types.len() as int)
        },
        MetadataError::Definition(i) => {
            &&& sizes_ok(t)
            &&& types_ok_upto(t, t.types.len() as int)
            &&& i < t.type_definitions.len()
            &&& definitions_ok_upto(t, i as int)
            &&& !definition_ok(t.type_definitions[i as int], t)
        },
        MetadataError::Field(i) => {
            &&& sizes_ok(t)
            &&& types_ok_upto(t, t.types.len() as int)
            &&& definitions_ok_upto(t, t.type_definitions.len() as int)
            &&& i < t.fields.len()
            &&& fields_ok_upto(t, i as int)
            &&& !(t.fields[i as int].type_index < t.types.len())
        },
        MetadataError::Method(i) => {
            &&& sizes_ok(t)
            &&& types_ok_upto(t, t.types.len() as int)
            &&& definitions_ok_upto(t, t.type_definitions.len() as int)
            &&& fields_ok_upto(t, t.fields.len() as int)
            &&& i < t.methods.len()
            &&& methods_ok_upto(t, i as int)
            &&& !method_ok(t.methods[i as int], t)
        },
        MetadataError::Parameter(i) => {
            &&& sizes_ok(t)
            &&& types_ok_upto(t, t.types.len() as int)
            &&& definitions_ok_upto(t, t.type_definitions.len() as int)
            &&& fields_ok_upto(t, t.fields.len() as int)
            &&& methods_ok_upto(t, t.methods.len() as int)
            &&& i < t.parameters.len()
            &&& parameters_ok_upto(t, i as int)
            &&& !(t.parameters[i as int].type_index < t.types.len())
        },
        MetadataError::Property(i) => {
            &&& sizes_ok(t)
            &&& types_ok_upto(t, t.types.len() as int)
            &&& definitions_ok_upto(t, t.type_definitions.len() as int)
            &&& fields_ok_upto(t, t.fields.len() as int)
            &&& methods_ok_upto(t, t.methods.len() as int)
            &&& parameters_ok_upto(t, t.parameters.len() as int)
            &&& i < t.properties.len()
            &&& properties_ok_upto(t, i as int)
            &&& !(t.properties[i as int].type_index < t.types.len())
        },
        MetadataError::MethodSpec(i) => {
            &&& sizes_ok(t)
            &&& types_ok_upto(t, t.types.len() as int)
            &&& definitions_ok_upto(t, t.type_definitions.len() as int)
            &&& fields_ok_upto(t, t.fields.len() as int)
            &&& methods_ok_upto(t, t.methods.len() as int)
            &&& parameters_ok_upto(t, t.parameters.len() as int)
            &&& properties_ok_upto(t, t.properties.len() as int)
            &&& i < t.method_specs.len()
            &&& method_specs_ok_upto(t, i as int)
            &&& !method_spec_ok(t.method_specs[i as int], t)
        },
        MetadataError::NestingCycle(i) => {
            &&& sizes_ok(t)
            &&& types_ok_upto(t, t.types.len() as int)
            &&& definitions_ok_upto(t, t.type_definitions.len() as int)
            &&& fields_ok_upto(t, t.fields.len() as int)
            &&& methods_ok_upto(t, t.methods.len() as int)
            &&& parameters_ok_upto(t, t.parameters.len() as int)
            &&& properties_ok_upto(t, t.properties.len() as int)
            &&& method_specs_ok_upto(t, t.method_specs.len() as int)
            &&& i < t.type_definitions.len()
            &&& nesting_ok_upto(t, i as int)
            &&& !is_rooted(t, i as int)
        },
    }
}

/// The definitions nested directly in `p` among the first `upto`, ascending.
pub open spec fn nested_in(defs: Seq<TypeDefinition>, p: int, upto: nat) -> Seq<u32>
    decreases upto,
{
    if upto == 0 {
        Seq::empty()
    } else {
        let rest = nested_in(defs, p, (upto - 1) as nat);
        if defs[upto - 1].declaring_type == Some(p as u32) {
            rest.push((upto - 1) as u32)
        } else {
            rest
        }
    }
}

/// The full name of definition `i`: the full name of its declaring type and
/// `::` before the name of a nested type, the namespace and `.` before that
/// of a top-level type in a namespace, where the namespace is asked for.
pub open spec fn full_name_within(
    defs: Seq<TypeDefinition>,
    i: int,
    include_namespace: bool,
    fuel: nat,
) -> Seq<char>
    decreases fuel,
{
    let d = defs[i];
    if d.declaring_type is Some && fuel > 0 {
        full_name_within(defs, d.declaring_type.unwrap() as int, include_namespace, (fuel - 1) as nat)
            + seq![':', ':'] + d.name@
    } else if include_namespace && d.namespace@.len() > 0 {
        d.namespace@ + seq!['.'] + d.name@
    } else {
        d.name@
    }
}

fn check_all_below(v: &Vec<u32>, bound: usize) -> (r: bool)
    ensures
        r == all_below(v@, bound as int),
{
    let mut k: usize = 0;
    while k < v.len()
        invariant
            k <= v.len(),
            forall|j: int| 0 <= j < k ==> #[trigger] v[j] < bound,
        decreases v.len() - k,
    {
        if v[k] as usize >= bound {
            return false;
        }
        k += 1;
    }
    true
}

fn check_option_below(o: &Option<u32>, bound: usize) -> (r: bool)
    ensures
        r == option_below(*o, bound as int),
{
    match o {
        Some(i) => (*i as usize) < bound,
        None => true,
    }
}

fn check_arguments_below(o: &Option<Vec<u32>>, bound: usize) -> (r: bool)
    ensures
        r == arguments_below(*o, bound as int),
{
    match o {
        Some(v) => check_all_below(v, bound),
        None => true,
    }
}

fn check_range(start: u32, count: u32, len: usize) -> (r: bool)
    ensures
        r == (start + count <= len),
{
    (start as u64) + (count as u64) <= (len as u64)
}

fn check_type_record(r: &TypeRecord, definitions: usize, types: usize) -> (ok: bool)
    ensures
        ok == type_record_ok(*r, definitions as int, types as int),
{
    match r {
        TypeRecord::Primitive(_) => true,
        TypeRecord::Definition(d) => (*d as usize) < definitions,
        TypeRecord::GenericInstance { definition_index, type_arguments } => {
            (*definition_index as usize) < definitions && check_all_below(type_arguments, types)
        },
        TypeRecord::GenericParameter(_) => true,
        TypeRecord::Array(e) => (*e as usize) < types,
    }
}

fn check_definition(d: &TypeDefinition, t: &MetadataTables) -> (ok: bool)
    ensures
        ok == definition_ok(*d, *t),
{
    check_option_below(&d.declaring_type, t.type_definitions.len()) && check_option_below(
        &d.base_type,
        t.types.len(),
    ) && check_all_below(&d.interfaces, t.types.len()) && check_range(
        d.field_start,
        d.field_count,
        t.fields.len(),
    ) && check_range(d.method_start, d.method_count, t.methods.len()) && check_range(
        d.property_start,
        d.property_count,
        t.properties.len(),
    )
}

fn check_method(m: &MethodDefinition, t: &MetadataTables) -> (ok: bool)
    ensures
        ok == method_ok(*m, *t),
{
    (m.declaring_type as usize) < t.type_definitions.len() && (m.return_type as usize)
        < t.types.len() && check_range(m.parameter_start, m.parameter_count, t.parameters.len())
}

fn check_method_spec(s: &MethodSpec, t: &MetadataTables) -> (ok: bool)
    ensures
        ok == method_spec_ok(*s, *t),
{
    (s.method_index as usize) < t.methods.len() && check_arguments_below(
        &s.class_arguments,
        t.types.len(),
    ) && check_arguments_below(&s.method_arguments, t.types.len())
}

fn check_sizes(t: &MetadataTables) -> (ok: bool)
    ensures
        ok == sizes_ok(*t),
{
    let max: usize = 0xffff_ffff;
    t.type_definitions.len() <= max && t.types.len() <= max && t.fields.len() <= max
        && t.methods.len() <= max && t.parameters.len() <= max && t.properties.len() <= max
        && t.method_specs.len() <= max
}

/// The outermost declaring type of definition `i`, or `None` where its chain
/// of declaring types does not end.
fn find_root(t: &MetadataTables, i: usize) -> (r: Option<u32>)
    requires
        sizes_ok(*t),
        definitions_ok_upto(*t, t.type_definitions.len() as int),
        i < t.type_definitions.len(),
    ensures
        match r {
            Some(root) => nesting_root(t.type_definitions@, i as int, t.type_definitions.len() as nat)
                == Some(root as int),
            None => !is_rooted(*t, i as int),
        },
{
    let n = t.type_definitions.len();
    let mut cur: usize = i;
    let mut steps: usize = 0;
    loop
        invariant
            n == t.type_definitions.len(),
            sizes_ok(*t),
            definitions_ok_upto(*t, n as int),
            cur < n,
            steps <= n,
            nesting_root(t.type_definitions@, i as int, n as nat) == nesting_root(
                t.type_definitions@,
                cur as int,
                (n - steps) as nat,
            ),
        decreases n - steps,
    {
        match t.type_definitions[cur].declaring_type {
            None => {
                return Some(cur as u32);
            },
            Some(p) => {
                if steps == n {
                    return None;
                }
                assert(definition_ok(t.type_definitions[cur as int], *t));
                cur = p as usize;
                steps += 1;
            },
        }
    }
}

/// The decoded metadata behind index-based lookups. A value of this type has
/// passed the integrity check.
pub struct Metadata {
    tables: MetadataTables,
    blacklisted_types: Vec<bool>,
    parent_to_child_map: Vec<Vec<u32>>,
    roots: Vec<u32>,
    parameters: LayoutParameters,
}

impl Metadata {
    pub closed spec fn tables(&self) -> MetadataTables {
        self.tables
    }

    /// The parameters of the metadata format.
    pub closed spec fn parameters(&self) -> LayoutParameters {
        self.parameters
    }

    /// The definitions excluded from generation, as one flag per definition.
    pub closed spec fn blacklist(&self) -> Seq<bool> {
        self.blacklisted_types@
    }

    closed spec fn derived_ok(&self) -> bool {
        let defs = self.tables.type_definitions@;
        &&& self.parent_to_child_map.len() == defs.len()
        &&& self.roots.len() == defs.len()
        &&& forall|p: int|
            0 <= p < defs.len() ==> (#[trigger] self.parent_to_child_map[p])@ == nested_in(
                defs,
                p,
                defs.len(),
            )
        &&& forall|i: int|
            0 <= i < defs.len() ==> nesting_root(defs, i, defs.len()) == Some(
                #[trigger] self.roots[i] as int,
            )
    }

    /// The tables are sound and the derived relations agree with them.
    pub closed spec fn wf(&self) -> bool {
        &&& parameters_ok(self.parameters)
        &&& tables_ok(self.tables)
        &&& self.blacklisted_types.len() == self.tables.type_definitions.len()
        &&& self.derived_ok()
    }

    pub open spec fn definitions(&self) -> Seq<TypeDefinition> {
        self.tables().type_definitions@
    }

    pub open spec fn is_blacklisted_spec(&self, index: int) -> bool {
        0 <= index < self.blacklist().len() && self.blacklist()[index]
    }

    /// The outermost declaring type of a definition.
    pub open spec fn root_of(&self, index: int) -> int {
        nesting_root(self.definitions(), index, self.definitions().len()).unwrap()
    }

    /// The definitions nested directly in `index`, ascending.
    pub open spec fn children_of(&self, index: int) -> Seq<u32> {
        nested_in(self.definitions(), index, self.definitions().len())
    }

    /// Definition `d` is `c` itself or one of the types that `c` is nested in.
    pub open spec fn encloses_spec(&self, d: int, c: int) -> bool {
        encloses_within(self.definitions(), d, c, self.definitions().len())
    }

    /// The full name of the definition at `index`.
    pub open spec fn full_name_of(&self, index: int, include_namespace: bool) -> Seq<char> {
        full_name_within(
            self.definitions(),
            index,
            include_namespace,
            self.definitions().len(),
        )
    }

    /// No definition before `upto` has the full name `name`, namespace
    /// included.
    pub open spec fn no_match_before(&self, name: Seq<char>, upto: int) -> bool {
        forall|j: int| 0 <= j < upto ==> #[trigger] self.full_name_of(j, true) != name
    }

    pub proof fn lemma_wf(&self)
        requires
            self.wf(),
        ensures
            parameters_ok(self.parameters()),
            tables_ok(self.tables()),
            self.blacklist().len() == self.definitions().len(),
    {
    }

    /// Checks the tables and derives the nesting relations. Nothing is
    /// blacklisted at first.
    #[verifier::loop_isolation(false)]
    pub fn new(tables: MetadataTables, parameters: LayoutParameters) -> (r: Result<
        Metadata,
        MetadataError,
    >)
        ensures
            match r {
                Ok(m) => {
                    &&& parameters_ok(parameters)
                    &&& tables_ok(tables)
                    &&& m.wf()
                    &&& m.tables() == tables
                    &&& m.parameters() == parameters
                    &&& forall|i: int| !m.is_blacklisted_spec(i)
                },
                Err(e) => if parameters_ok(parameters) {
                    is_fault(tables, e)
                } else {
                    e == MetadataError::LayoutParameters
                },
            },
    {
        if !(1 <= parameters.packing_field_offset && parameters.packing_field_offset <= 29 && 1
            <= parameters.size_is_default_offset && parameters.size_is_default_offset <= 32 && 1
            <= parameters.specified_packing_field_offset
            && parameters.specified_packing_field_offset <= 29 && 1
            <= parameters.packing_is_default_offset && parameters.packing_is_default_offset <= 32) {
            return Err(MetadataError::LayoutParameters);
        }
        if !check_sizes(&tables) {
            return Err(MetadataError::TooManyRecords);
        }
        let n_types = tables.types.len();
        let n = tables.type_definitions.len();
        let mut i: usize = 0;
        while i < n_types
            invariant
                n_types == tables.types.len(),
                n == tables.type_definitions.len(),
                i <= n_types,
                types_ok_upto(tables, i as int),
            decreases n_types - i,
        {
            if !check_type_record(&tables.types[i], n, n_types) {
                return Err(MetadataError::TypeRecord(i));
            }
            i += 1;
        }
        i = 0;
        while i < n
            invariant
                n == tables.type_definitions.len(),
                i <= n,
                definitions_ok_upto(tables, i as int),
            decreases n - i,
        {
            if !check_definition(&tables.type_definitions[i], &tables) {
                return Err(MetadataError::Definition(i));
            }
            i += 1;
        }
        i = 0;
        while i < tables.fields.len()
            invariant
                n_types == tables.types.len(),
                i <= tables.fields.len(),
                fields_ok_upto(tables, i as int),
            decreases tables.fields.len() - i,
        {
            if tables.fields[i].type_index as usize >= n_types {
                return Err(MetadataError::Field(i));
            }
            i += 1;
        }
        i = 0;
        while i < tables.methods.len()
            invariant
                i <= tables.methods.len(),
                methods_ok_upto(tables, i as int),
            decreases tables.methods.len() - i,
        {
            if !check_method(&tables.methods[i], &tables) {
                return Err(MetadataError::Method(i));
            }
            i += 1;
        }
        i = 0;
        while i < tables.parameters.len()
            invariant
                n_types == tables.types.len(),
                i <= tables.parameters.len(),
                parameters_ok_upto(tables, i as int),
            decreases tables.parameters.len() - i,
        {
            if tables.parameters[i].type_index as usize >= n_types {
                return Err(MetadataError::Parameter(i));
            }
            i += 1;
        }
        i = 0;
        while i < tables.properties.len()
            invariant
                n_types == tables.types.len(),
                i <= tables.properties.len(),
                properties_ok_upto(tables, i as int),
            decreases tables.properties.len() - i,
        {
            if tables.properties[i].type_index as usize >= n_types {
                return Err(MetadataError::Property(i));
            }
            i += 1;
        }
        i = 0;
        while i < tables.method_specs.len()
            invariant
                i <= tables.method_specs.len(),
                method_specs_ok_upto(tables, i as int),
            decreases tables.method_specs.len() - i,
        {
            if !check_method_spec(&tables.method_specs[i], &tables) {
                return Err(MetadataError::MethodSpec(i));
            }
            i += 1;
        }
        let mut roots: Vec<u32> = Vec::new();
        let mut blacklisted_types: Vec<bool> = Vec::new();
        let mut parent_to_child_map: Vec<Vec<u32>> = Vec::new();
        i = 0;
        while i < n
            invariant
                n == tables.type_definitions.len(),
                sizes_ok(tables),
                definitions_ok_upto(tables, n as int),
                i <= n,
                nesting_ok_upto(tables, i as int),
                roots.len() == i,
                blacklisted_types.len() == i,
                parent_to_child_map.len() == i,
                forall|k: int| 0 <= k < i ==> !(#[trigger] blacklisted_types[k]),
                forall|k: int| 0 <= k < i ==> (#[trigger] parent_to_child_map[k])@.len() == 0,
                forall|k: int|
                    0 <= k < i ==> nesting_root(tables.type_definitions@, k, n as nat) == Some(
                        #[trigger] roots[k] as int,
                    ),
            decreases n - i,
        {
            match find_root(&tables, i) {
                Some(root) => {
                    roots.push(root);
                },
                None => {
                    return Err(MetadataError::NestingCycle(i));
                },
            }
            blacklisted_types.push(false);
            parent_to_child_map.push(Vec::new());
            i += 1;
        }
        i = 0;
        while i < n
            invariant
                n == tables.type_definitions.len(),
                sizes_ok(tables),
                definitions_ok_upto(tables, n as int),
                i <= n,
                parent_to_child_map.len() == n,
                forall|p: int|
                    0 <= p < n ==> (#[trigger] parent_to_child_map[p])@ == nested_in(
                        tables.type_definitions@,
                        p,
                        i as nat,
                    ),
            decreases n - i,
        {
            assert(definition_ok(tables.type_definitions[i as int], tables));
            match tables.type_definitions[i].declaring_type {
                Some(p) => {
                    parent_to_child_map[p as usize].push(i as u32);
                },
                None => {},
            }
            i += 1;
        }
        Ok(Metadata { tables, blacklisted_types, parent_to_child_map, roots, parameters })
    }

    /// The type definition at `index`.
    pub fn type_definition(&self, index: u32) -> (r: &TypeDefinition)
        requires
            index < self.definitions().len(),
        ensures
            *r == self.definitions()[index as int],
    {
        &self.tables.type_definitions[index as usize]
    }

    /// The parameters of the metadata format.
    pub fn layout_parameters(&self) -> (r: LayoutParameters)
        ensures
            r == self.parameters(),
    {
        self.parameters
    }

    /// How many type definitions the image holds.
    pub fn type_definition_count(&self) -> (r: usize)
        ensures
            r == self.definitions().len(),
    {
        self.tables.type_definitions.len()
    }

    /// The decoded tables.
    pub fn get_tables(&self) -> (r: &MetadataTables)
        ensures
            *r == self.tables(),
    {
        &self.tables
    }

    /// Whether the definition at `index` is excluded from generation.
    pub fn is_blacklisted(&self, index: u32) -> (r: bool)
        ensures
            r == self.is_blacklisted_spec(index as int),
    {
        (index as usize) < self.blacklisted_types.len() && self.blacklisted_types[index as usize]
    }

    /// Whether the definition at `index` is declared inside another.
    pub fn is_nested(&self, index: u32) -> (r: bool)
        requires
            index < self.definitions().len(),
        ensures
            r == (self.definitions()[index as int].declaring_type is Some),
    {
        self.tables.type_definitions[index as usize].declaring_type.is_some()
    }

    fn full_name_bounded(&self, index: u32, include_namespace: bool, fuel: usize) -> (r: String)
        requires
            self.wf(),
            index < self.definitions().len(),
        ensures
            r@ == full_name_within(self.definitions(), index as int, include_namespace, fuel as nat),
        decreases fuel,
    {
        let d = &self.tables.type_definitions[index as usize];
        proof {
            reveal_strlit("::");
            reveal_strlit(".");
            assert("::"@ =~= seq![':', ':']);
            assert("."@ =~= seq!['.']);
            assert(definition_ok(self.tables.type_definitions[index as int], self.tables));
        }
        let mut out: String;
        match d.declaring_type {
            Some(p) if fuel > 0 => {
                out = self.full_name_bounded(p, include_namespace, fuel - 1);
                out.append("::");
            },
            _ => {
                out = String::new();
                if include_namespace && !d.namespace.as_str().is_empty() {
                    out.append(d.namespace.as_str());
                    out.append(".");
                }
            },
        }
        out.append(d.name.as_str());
        proof {
            assert(Seq::<char>::empty() + d.name@ =~= d.name@);
        }
        out
    }

    /// The full name of the definition at `index`, with or without the
    /// namespace of its outermost declaring type.
    pub fn full_name(&self, index: u32, include_namespace: bool) -> (r: String)
        requires
            self.wf(),
            index < self.definitions().len(),
        ensures
            r@ == self.full_name_of(index as int, include_namespace),
    {
        self.full_name_bounded(index, include_namespace, self.tables.type_definitions.len())
    }

    /// Excludes the definition at `index` from generation.
    pub fn blacklist_index(&mut self, index: u32)
        requires
            old(self).wf(),
            index < old(self).definitions().len(),
        ensures
            final(self).wf(),
            final(self).tables() == old(self).tables(),
            final(self).parameters() == old(self).parameters(),
            final(self).blacklist() == old(self).blacklist().update(index as int, true),
    {
        self.blacklisted_types[index as usize] = true;
    }

    /// Excludes from generation the first definition whose full name,
    /// namespace included, is `full_name`, and returns its index; `None`, and
    /// nothing changed, where no definition has that name.
    pub fn blacklist_type(&mut self, full_name: &str) -> (r: Option<u32>)
        requires
            old(self).wf(),
        ensures
            final(self).wf(),
            final(self).tables() == old(self).tables(),
            final(self).parameters() == old(self).parameters(),
            match r {
                Some(i) => {
                    &&& i < old(self).definitions().len()
                    &&& old(self).full_name_of(i as int, true) == full_name@
                    &&& old(self).no_match_before(full_name@, i as int)
                    &&& final(self).blacklist() == old(self).blacklist().update(i as int, true)
                },
                None => {
                    &&& old(self).no_match_before(full_name@, old(self).definitions().len() as int)
                    &&& final(self).blacklist() == old(self).blacklist()
                },
            },
    {
        let wanted = full_name.to_owned();
        let n = self.tables.type_definitions.len();
        let mut i: usize = 0;
        while i < n
            invariant
                *self == *old(self),
                self.wf(),
                n == self.definitions().len(),
                i <= n,
                wanted@ == full_name@,
                self.no_match_before(full_name@, i as int),
            decreases n - i,
        {
            let name = self.full_name(i as u32, true);
            if name == wanted {
                self.blacklisted_types[i] = true;
                return Some(i as u32);
            }
            i += 1;
        }
        None
    }

    /// The fields of the definition at `index`, in declaration order.
    pub fn fields_of(&self, index: u32) -> (r: &[FieldDefinition])
        requires
            self.wf(),
            index < self.definitions().len(),
        ensures
            r@ == self.tables().fields@.subrange(
                self.definitions()[index as int].field_start as int,
                self.definitions()[index as int].field_start + self.definitions()[index
                    as int].field_count,
            ),
    {
        let def = &self.tables.type_definitions[index as usize];
        assert(definition_ok(self.tables.type_definitions[index as int], self.tables));
        vstd::slice::slice_subrange(
            self.tables.fields.as_slice(),
            def.field_start as usize,
            def.field_start as usize + def.field_count as usize,
        )
    }

    /// The methods of the definition at `index`, in declaration order.
    pub fn methods_of(&self, index: u32) -> (r: &[MethodDefinition])
        requires
            self.wf(),
            index < self.definitions().len(),
        ensures
            r@ == self.tables().methods@.subrange(
                self.definitions()[index as int].method_start as int,
                self.definitions()[index as int].method_start + self.definitions()[index
                    as int].method_count,
            ),
    {
        let def = &self.tables.type_definitions[index as usize];
        assert(definition_ok(self.tables.type_definitions[index as int], self.tables));
        vstd::slice::slice_subrange(
            self.tables.methods.as_slice(),
            def.method_start as usize,
            def.method_start as usize + def.method_count as usize,
        )
    }

    /// The names of the generic parameters of the definition at `index`.
    pub fn generic_params_of(&self, index: u32) -> (r: &Vec<String>)
        requires
            index < self.definitions().len(),
        ensures
            *r == self.definitions()[index as int].generic_parameters,
    {
        &self.tables.type_definitions[index as usize].generic_parameters
    }

    /// The first top-level definition of the given namespace and name.
    pub fn find_definition(&self, namespace: &str, name: &str) -> (r: Option<u32>)
        requires
            self.wf(),
        ensures
            match r {
                Some(i) => {
                    &&& i < self.definitions().len()
                    &&& is_named(self.definitions()[i as int], namespace@, name@)
                    &&& forall|j: int|
                        0 <= j < i ==> !is_named(#[trigger] self.definitions()[j], namespace@, name@)
                },
                None => forall|j: int|
                    0 <= j < self.definitions().len() ==> !is_named(
                        #[trigger] self.definitions()[j],
                        namespace@,
                        name@,
                    ),
            },
    {
        let wanted_namespace = namespace.to_owned();
        let wanted_name = name.to_owned();
        let n = self.tables.type_definitions.len();
        let mut i: usize = 0;
        while i < n
            invariant
                self.wf(),
                n == self.tables.type_definitions.len(),
                i <= n,
                wanted_namespace@ == namespace@,
                wanted_name@ == name@,
                forall|j: int|
                    0 <= j < i ==> !is_named(#[trigger] self.definitions()[j], namespace@, name@),
            decreases n - i,
        {
            let d = &self.tables.type_definitions[i];
            if d.declaring_type.is_none() && d.namespace == wanted_namespace && d.name
                == wanted_name {
                return Some(i as u32);
            }
            i += 1;
        }
        None
    }

    /// Whether definition `d` is `c` itself or one of the types that `c` is
    /// nested in.
    pub fn encloses(&self, d: u32, c: u32) -> (r: bool)
        requires
            self.wf(),
            c < self.definitions().len(),
        ensures
            r == self.encloses_spec(d as int, c as int),
    {
        let n = self.tables.type_definitions.len();
        let mut cur: usize = c as usize;
        let mut steps: usize = 0;
        loop
            invariant
                self.wf(),
                n == self.tables.type_definitions.len(),
                cur < n,
                steps <= n,
                encloses_within(self.tables.type_definitions@, d as int, c as int, n as nat)
                    == encloses_within(
                    self.tables.type_definitions@,
                    d as int,
                    cur as int,
                    (n - steps) as nat,
                ),
            decreases n - steps,
        {
            if cur == d as usize {
                return true;
            }
            match self.tables.type_definitions[cur].declaring_type {
                None => {
                    return false;
                },
                Some(p) => {
                    if steps == n {
                        return false;
                    }
                    assert(definition_ok(self.tables.type_definitions[cur as int], self.tables));
                    cur = p as usize;
                    steps += 1;
                },
            }
        }
    }

    /// The outermost declaring type of the definition at `index`; the
    /// definition itself where it is top-level.
    pub fn root(&self, index: u32) -> (r: u32)
        requires
            self.wf(),
            index < self.definitions().len(),
        ensures
            r == self.root_of(index as int),
            r < self.definitions().len(),
    {
        proof {
            lemma_root_in_range(
                self.tables.type_definitions@,
                index as int,
                self.tables.type_definitions.len() as nat,
            );
        }
        self.roots[index as usize]
    }

    /// The definitions declared directly inside the one at `index`.
    pub fn nested_types(&self, index: u32) -> (r: &Vec<u32>)
        requires
            self.wf(),
            index < self.definitions().len(),
        ensures
            r@ == self.children_of(index as int),
    {
        &self.parent_to_child_map[index as usize]
    }
}

pub proof fn lemma_root_in_range(defs: Seq<TypeDefinition>, i: int, fuel: nat)
    ensures
        nesting_root(defs, i, fuel) matches Some(r) ==> 0 <= r < defs.len()
            && defs[r].declaring_type is None,
    decreases fuel,
{
    if 0 <= i < defs.len() {
        match defs[i].declaring_type {
            None => {},
            Some(p) => {
                if fuel > 0 {
                    lemma_root_in_range(defs, p as int, (fuel - 1) as nat);
                }
            },
        }
    }
}

} // verus!
