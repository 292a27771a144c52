//! Sizes from metadata: what each type takes as a field, and where the
//! instance fields of a definition lie, through base types and through value
//! types embedded by value.
use crate::generate::layout::{
    align_to, class_size_of, is_layout_of, layout_fields, state_after, FieldLayout, FieldShape,
    LayoutError,
};
use crate::generate::metadata::{
    all_below, definition_ok, parameters_ok, tables_ok, type_record_ok, LayoutParameters, Metadata,
    PointerSize, Primitive, TypeRecord,
};
use vstd::prelude::*;

verus! {

pub open spec fn pointer_bytes(p: PointerSize) -> u8 {
    match p {
        PointerSize::Bytes4 => 4,
        PointerSize::Bytes8 => 8,
    }
}

/// The size in bytes of a built-in kind; references take a pointer.
pub open spec fn primitive_bytes(p: Primitive, pointer: u8) -> u8 {
    match p {
        Primitive::Void => 0,
        Primitive::Boolean => 1,
        Primitive::I1 => 1,
        Primitive::U1 => 1,
        Primitive::Char => 2,
        Primitive::I2 => 2,
        Primitive::U2 => 2,
        Primitive::I4 => 4,
        Primitive::U4 => 4,
        Primitive::R4 => 4,
        Primitive::I8 => 8,
        Primitive::U8 => 8,
        Primitive::R8 => 8,
        Primitive::IntPtr => pointer,
        Primitive::UIntPtr => pointer,
        Primitive::String => pointer,
        Primitive::Object => pointer,
    }
}

/// A scalar of `bytes` bytes is aligned at its own size.
pub open spec fn scalar_shape(bytes: u8) -> FieldShape {
    FieldShape {
        size: bytes as u32,
        alignment: if bytes == 0 {
            1
        } else {
            bytes
        },
        natural_alignment: bytes,
    }
}

/// The packing size that a four-bit code of the layout flags stands for.
pub open spec fn packing_value(code: u32) -> u8 {
    if code == 1 {
        1
    } else if code == 2 {
        2
    } else if code == 3 {
        4
    } else if code == 4 {
        8
    } else if code == 5 {
        16
    } else if code == 6 {
        32
    } else if code == 7 {
        64
    } else if code == 8 {
        128
    } else {
        0
    }
}

/// The flag at position `offset`, counted from 1.
pub open spec fn flag_at(bitfield: u32, offset: u8) -> bool {
    (bitfield >> ((offset - 1) as u32)) & 1 == 1
}

/// The four bits that start at position `offset`, counted from 1.
pub open spec fn code_at(bitfield: u32, offset: u8) -> u32 {
    (bitfield >> ((offset - 1) as u32)) & 0xF
}

/// What the layout flags of a definition say about packing and size.
#[derive(Clone, Copy, Debug, PartialEq, Eq, Structural)]
pub struct PackingInfo {
    /// The packing that caps field alignment; 0 where the default holds.
    pub packing: u8,
    /// The packing as it was written down; 0 where none was.
    pub specified_packing: u8,
    pub packing_is_default: bool,
    pub size_is_default: bool,
}

pub open spec fn packing_info(bitfield: u32, p: LayoutParameters) -> PackingInfo {
    let packing_is_default = flag_at(bitfield, p.packing_is_default_offset);
    PackingInfo {
        packing: if packing_is_default {
            0
        } else {
            packing_value(code_at(bitfield, p.packing_field_offset))
        },
        specified_packing: packing_value(code_at(bitfield, p.specified_packing_field_offset)),
        packing_is_default,
        size_is_default: flag_at(bitfield, p.size_is_default_offset),
    }
}

fn packing_of_code(code: u32) -> (r: u8)
    ensures
        r == packing_value(code),
{
    if code == 1 {
        1
    } else if code == 2 {
        2
    } else if code == 3 {
        4
    } else if code == 4 {
        8
    } else if code == 5 {
        16
    } else if code == 6 {
        32
    } else if code == 7 {
        64
    } else if code == 8 {
        128
    } else {
        0
    }
}

/// Reads packing and size flags out of the layout flags of a definition, at
/// the positions that the metadata format puts them.
pub fn get_packing_info(bitfield: u32, p: LayoutParameters) -> (r: PackingInfo)
    requires
        parameters_ok(p),
    ensures
        r == packing_info(bitfield, p),
{
    let packing_is_default = (bitfield >> ((p.packing_is_default_offset - 1) as u32)) & 1 == 1;
    let size_is_default = (bitfield >> ((p.size_is_default_offset - 1) as u32)) & 1 == 1;
    let code = (bitfield >> ((p.packing_field_offset - 1) as u32)) & 0xF;
    let specified = (bitfield >> ((p.specified_packing_field_offset - 1) as u32)) & 0xF;
    PackingInfo {
        packing: if packing_is_default {
            0
        } else {
            packing_of_code(code)
        },
        specified_packing: packing_of_code(specified),
        packing_is_default,
        size_is_default,
    }
}

/// The type that stands at `ty` once the arguments `args` are put in place of
/// the generic parameters: the argument for a parameter that has one, `ty`
/// itself otherwise.
pub open spec fn substituted(md: Metadata, args: Seq<u32>, ty: int) -> int {
    match md.tables().types[ty] {
        TypeRecord::GenericParameter(k) => if k < args.len() {
            args[k as int] as int
        } else {
            ty
        },
        _ => ty,
    }
}

pub open spec fn substituted_all(md: Metadata, args: Seq<u32>, inner: Seq<u32>) -> Seq<u32> {
    inner.map_values(|a: u32| substituted(md, args, a as int) as u32)
}

/// What an instance of a definition takes.
pub struct Extent {
    /// Size up to the end of the last field.
    pub actual_size: u32,
    /// Size rounded up to the alignment, or the size that the image declares.
    pub class_size: u32,
    pub alignment: u8,
    pub natural_alignment: u8,
}

/// The layout of one definition: what an instance takes, the shapes of its
/// instance fields and where they lie.
pub struct InstanceLayout {
    pub extent: Extent,
    pub shapes: Vec<FieldShape>,
    pub layout: FieldLayout,
}

/// What an instance starts with where it has no base type to inherit from:
/// the object header of two pointers.
pub open spec fn header_extent(pointer: u8) -> Extent {
    Extent {
        actual_size: (2 * pointer) as u32,
        class_size: (2 * pointer) as u32,
        alignment: pointer,
        natural_alignment: pointer,
    }
}

/// A value starts at offset 0, with no alignment of its own.
pub open spec fn empty_extent() -> Extent {
    Extent { actual_size: 0, class_size: 0, alignment: 1, natural_alignment: 0 }
}

/// What the type at `ty` takes as a field of a type instantiated with
/// `args`: a scalar its size, a reference a pointer, a value type its whole
/// instance. `fuel` bounds the depth of embedding.
pub open spec fn shape_of(md: Metadata, args: Seq<u32>, ty: int, fuel: nat) -> Result<
    FieldShape,
    LayoutError,
>
    decreases fuel, 2nat, 0nat,
{
    let pointer = pointer_bytes(md.parameters().pointer_size);
    let t = substituted(md, args, ty);
    match md.tables().types[t] {
        TypeRecord::Primitive(p) => Ok(scalar_shape(primitive_bytes(p, pointer))),
        TypeRecord::Definition(d) => embedded_shape(md, d as int, Seq::empty(), fuel),
        TypeRecord::GenericInstance { definition_index, type_arguments } => embedded_shape(
            md,
            definition_index as int,
            if t == ty {
                substituted_all(md, args, type_arguments@)
            } else {
                type_arguments@
            },
            fuel,
        ),
        TypeRecord::GenericParameter(_) => Ok(scalar_shape(pointer)),
        TypeRecord::Array(_) => Ok(scalar_shape(pointer)),
    }
}

/// What a field of definition `d`, instantiated with `args`, takes.
pub open spec fn embedded_shape(md: Metadata, d: int, args: Seq<u32>, fuel: nat) -> Result<
    FieldShape,
    LayoutError,
>
    decreases fuel, 1nat, 0nat,
{
    let pointer = pointer_bytes(md.parameters().pointer_size);
    if !md.definitions()[d].is_value_type {
        Ok(scalar_shape(pointer))
    } else if fuel == 0 {
        Err(LayoutError::TooDeep)
    } else {
        match extent_of(md, d, args, (fuel - 1) as nat) {
            Ok(e) => Ok(
                FieldShape {
                    size: e.class_size,
                    alignment: e.alignment,
                    natural_alignment: e.natural_alignment,
                },
            ),
            Err(e) => Err(e),
        }
    }
}

/// The shapes of the instance fields among the first `upto` fields of
/// definition `d`, in field order.
pub open spec fn instance_shapes(
    md: Metadata,
    d: int,
    args: Seq<u32>,
    fuel: nat,
    upto: nat,
) -> Result<Seq<FieldShape>, LayoutError>
    decreases fuel, 3nat, upto,
{
    if upto == 0 {
        Ok(Seq::empty())
    } else {
        match instance_shapes(md, d, args, fuel, (upto - 1) as nat) {
            Err(e) => Err(e),
            Ok(rest) => {
                let f = md.tables().fields[md.definitions()[d].field_start + upto - 1];
                if f.is_static {
                    Ok(rest)
                } else {
                    match shape_of(md, args, f.type_index as int, fuel) {
                        Ok(s) => Ok(rest.push(s)),
                        Err(e) => Err(e),
                    }
                }
            },
        }
    }
}

/// How many of the first `upto` fields of definition `d` are instance fields.
pub open spec fn instance_rank(md: Metadata, d: int, upto: nat) -> nat
    decreases upto,
{
    if upto == 0 {
        0
    } else {
        let f = md.tables().fields[md.definitions()[d].field_start + upto - 1];
        instance_rank(md, d, (upto - 1) as nat) + if f.is_static {
            0nat
        } else {
            1nat
        }
    }
}

/// The shapes of the instance fields are as many as the instance fields, and
/// those of a longer run of fields begin with those of a shorter one.
pub proof fn lemma_instance_shapes(md: Metadata, d: int, args: Seq<u32>, fuel: nat, k: nat, n: nat)
    requires
        k <= n,
        instance_shapes(md, d, args, fuel, n) is Ok,
    ensures
        instance_shapes(md, d, args, fuel, k) is Ok,
        instance_shapes(md, d, args, fuel, k).unwrap().len() == instance_rank(md, d, k),
        instance_rank(md, d, k) <= instance_rank(md, d, n),
        forall|j: int|
            0 <= j < instance_rank(md, d, k) ==> instance_shapes(md, d, args, fuel, k).unwrap()[j]
                == instance_shapes(md, d, args, fuel, n).unwrap()[j],
    decreases n, n - k,
{
    if k < n {
        lemma_instance_shapes(md, d, args, fuel, k, (n - 1) as nat);
        lemma_instance_shapes(md, d, args, fuel, (n - 1) as nat, (n - 1) as nat);
    } else if n > 0 {
        lemma_instance_shapes(md, d, args, fuel, (n - 1) as nat, (n - 1) as nat);
    }
}

/// What the instance of definition `d` inherits: nothing for a value type,
/// the instance of its base type for a class that has one, the object header
/// otherwise.
pub open spec fn inherited_extent(md: Metadata, d: int, args: Seq<u32>, fuel: nat) -> Result<
    Extent,
    LayoutError,
>
    decreases fuel, 4nat, 0nat,
{
    let pointer = pointer_bytes(md.parameters().pointer_size);
    let def = md.definitions()[d];
    if def.is_value_type {
        Ok(empty_extent())
    } else {
        match def.base_type {
            None => Ok(header_extent(pointer)),
            Some(b) => match md.tables().types[b as int] {
                TypeRecord::Definition(base) => if fuel == 0 {
                    Err(LayoutError::TooDeep)
                } else {
                    extent_of(md, base as int, Seq::empty(), (fuel - 1) as nat)
                },
                TypeRecord::GenericInstance { definition_index, type_arguments } => if fuel == 0 {
                    Err(LayoutError::TooDeep)
                } else {
                    extent_of(
                        md,
                        definition_index as int,
                        substituted_all(md, args, type_arguments@),
                        (fuel - 1) as nat,
                    )
                },
                _ => Ok(header_extent(pointer)),
            },
        }
    }
}

/// The packing that caps the alignment of the fields of definition `d`.
pub open spec fn packing_of(md: Metadata, d: int) -> u8 {
    packing_info(md.definitions()[d].bitfield, md.parameters()).packing
}

/// The size that the image declares for definition `d`, where it declares
/// one that is not the default.
pub open spec fn declared_size(md: Metadata, d: int) -> Option<u32> {
    let def = md.definitions()[d];
    if packing_info(def.bitfield, md.parameters()).size_is_default {
        None
    } else {
        def.explicit_size
    }
}

/// What an instance of definition `d`, instantiated with `args`, takes: the
/// inherited part, then the instance fields laid out behind it.
pub open spec fn extent_of(md: Metadata, d: int, args: Seq<u32>, fuel: nat) -> Result<
    Extent,
    LayoutError,
>
    decreases fuel, 5nat, 0nat,
{
    match inherited_extent(md, d, args, fuel) {
        Err(e) => Err(e),
        Ok(parent) => match instance_shapes(
            md,
            d,
            args,
            fuel,
            md.definitions()[d].field_count as nat,
        ) {
            Err(e) => Err(e),
            Ok(shapes) => {
                let packing = packing_of(md, d);
                let end = state_after(
                    shapes,
                    parent.actual_size,
                    parent.alignment,
                    packing,
                    shapes.len(),
                );
                if class_size_of(shapes, parent.actual_size, parent.alignment, packing)
                    > u32::MAX {
                    Err(LayoutError::SizeOverflow)
                } else {
                    Ok(
                        Extent {
                            actual_size: end.actual_size as u32,
                            class_size: match declared_size(md, d) {
                                Some(s) => s,
                                None => align_to(end.actual_size, end.minimum_alignment) as u32,
                            },
                            alignment: end.minimum_alignment as u8,
                            natural_alignment: end.natural_alignment as u8,
                        },
                    )
                }
            },
        },
    }
}

/// The layout of the instance fields of definition `d`, instantiated with
/// `args`: `layout` lays out `shapes`, the shapes of its instance fields,
/// behind what `d` inherits.
pub open spec fn is_instance_layout(
    md: Metadata,
    d: int,
    args: Seq<u32>,
    fuel: nat,
    l: InstanceLayout,
) -> bool {
    &&& extent_of(md, d, args, fuel) == Ok::<Extent, LayoutError>(l.extent)
    &&& inherited_extent(md, d, args, fuel) matches Ok(parent)
    &&& instance_shapes(md, d, args, fuel, md.definitions()[d].field_count as nat) == Ok::<
        Seq<FieldShape>,
        LayoutError,
    >(l.shapes@)
    &&& class_size_of(l.shapes@, parent.actual_size, parent.alignment, packing_of(md, d))
        <= u32::MAX
    &&& is_layout_of(l.layout, l.shapes@, parent.actual_size, parent.alignment, packing_of(md, d))
}

/// Why definition `d` has no instance layout.
pub open spec fn layout_fault(md: Metadata, d: int, args: Seq<u32>, fuel: nat) -> Option<
    LayoutError,
> {
    match extent_of(md, d, args, fuel) {
        Ok(_) => None,
        Err(e) => Some(e),
    }
}

fn pointer_size_bytes(md: &Metadata) -> (r: u8)
    ensures
        r == pointer_bytes(md.parameters().pointer_size),
{
    match md.layout_parameters().pointer_size {
        PointerSize::Bytes4 => 4,
        PointerSize::Bytes8 => 8,
    }
}

fn scalar(bytes: u8) -> (r: FieldShape)
    ensures
        r == scalar_shape(bytes),
{
    FieldShape {
        size: bytes as u32,
        alignment: if bytes == 0 {
            1
        } else {
            bytes
        },
        natural_alignment: bytes,
    }
}

fn primitive_size(p: Primitive, pointer: u8) -> (r: u8)
    ensures
        r == primitive_bytes(p, pointer),
{
    match p {
        Primitive::Void => 0,
        Primitive::Boolean => 1,
        Primitive::I1 => 1,
        Primitive::U1 => 1,
        Primitive::Char => 2,
        Primitive::I2 => 2,
        Primitive::U2 => 2,
        Primitive::I4 => 4,
        Primitive::U4 => 4,
        Primitive::R4 => 4,
        Primitive::I8 => 8,
        Primitive::U8 => 8,
        Primitive::R8 => 8,
        Primitive::IntPtr => pointer,
        Primitive::UIntPtr => pointer,
        Primitive::String => pointer,
        Primitive::Object => pointer,
    }
}

/// The type index that stands at `ty` once `args` are put in place of the
/// generic parameters.
pub fn substitute(md: &Metadata, args: &Vec<u32>, ty: u32) -> (r: u32)
    requires
        md.wf(),
        ty < md.tables().types.len(),
        all_below(args@, md.tables().types.len() as int),
    ensures
        r == substituted(*md, args@, ty as int),
        r < md.tables().types.len(),
{
    match &md.get_tables().types[ty as usize] {
        TypeRecord::GenericParameter(k) => {
            if (*k as usize) < args.len() {
                args[*k as usize]
            } else {
                ty
            }
        },
        _ => ty,
    }
}

/// The arguments `inner` once `args` are put in place of the generic
/// parameters among them.
pub fn substitute_all(md: &Metadata, args: &Vec<u32>, inner: &Vec<u32>) -> (r: Vec<u32>)
    requires
        md.wf(),
        all_below(args@, md.tables().types.len() as int),
        all_below(inner@, md.tables().types.len() as int),
    ensures
        r@ == substituted_all(*md, args@, inner@),
        all_below(r@, md.tables().types.len() as int),
{
    let mut out: Vec<u32> = Vec::new();
    let mut k: usize = 0;
    while k < inner.len()
        invariant
            md.wf(),
            all_below(args@, md.tables().types.len() as int),
            all_below(inner@, md.tables().types.len() as int),
            k <= inner.len(),
            out.len() == k,
            forall|j: int|
                0 <= j < k ==> #[trigger] out[j] == substituted(*md, args@, inner[j] as int)
                    && out[j] < md.tables().types.len(),
        decreases inner.len() - k,
    {
        out.push(substitute(md, args, inner[k]));
        k += 1;
    }
    assert(out@ =~= substituted_all(*md, args@, inner@));
    out
}

fn shape_for(md: &Metadata, args: &Vec<u32>, ty: u32, fuel: usize) -> (r: Result<
    FieldShape,
    LayoutError,
>)
    requires
        md.wf(),
        ty < md.tables().types.len(),
        all_below(args@, md.tables().types.len() as int),
    ensures
        r == shape_of(*md, args@, ty as int, fuel as nat),
    decreases fuel, 2nat, 0nat,
{
    proof {
        md.lemma_wf();
    }
    let pointer = pointer_size_bytes(md);
    let t = substitute(md, args, ty);
    assert(type_record_ok(
        md.tables().types[t as int],
        md.tables().type_definitions.len() as int,
        md.tables().types.len() as int,
    ));
    match &md.get_tables().types[t as usize] {
        TypeRecord::Primitive(p) => Ok(scalar(primitive_size(*p, pointer))),
        TypeRecord::Definition(d) => {
            let none: Vec<u32> = Vec::new();
            assert(none@ =~= Seq::<u32>::empty());
            embedded_shape_for(md, *d, &none, fuel)
        },
        TypeRecord::GenericInstance { definition_index, type_arguments } => {
            if t == ty {
                let inner = substitute_all(md, args, type_arguments);
                embedded_shape_for(md, *definition_index, &inner, fuel)
            } else {
                embedded_shape_for(md, *definition_index, type_arguments, fuel)
            }
        },
        TypeRecord::GenericParameter(_) => Ok(scalar(pointer)),
        TypeRecord::Array(_) => Ok(scalar(pointer)),
    }
}

fn embedded_shape_for(md: &Metadata, d: u32, args: &Vec<u32>, fuel: usize) -> (r: Result<
    FieldShape,
    LayoutError,
>)
    requires
        md.wf(),
        d < md.definitions().len(),
        all_below(args@, md.tables().types.len() as int),
    ensures
        r == embedded_shape(*md, d as int, args@, fuel as nat),
    decreases fuel, 1nat, 0nat,
{
    let pointer = pointer_size_bytes(md);
    if !md.type_definition(d).is_value_type {
        Ok(scalar(pointer))
    } else if fuel == 0 {
        Err(LayoutError::TooDeep)
    } else {
        match extent_for(md, d, args, fuel - 1) {
            Ok(l) => Ok(
                FieldShape {
                    size: l.extent.class_size,
                    alignment: l.extent.alignment,
                    natural_alignment: l.extent.natural_alignment,
                },
            ),
            Err(e) => Err(e),
        }
    }
}

fn inherited_extent_for(md: &Metadata, d: u32, args: &Vec<u32>, fuel: usize) -> (r: Result<
    Extent,
    LayoutError,
>)
    requires
        md.wf(),
        d < md.definitions().len(),
        all_below(args@, md.tables().types.len() as int),
    ensures
        r == inherited_extent(*md, d as int, args@, fuel as nat),
    decreases fuel, 4nat, 0nat,
{
    proof {
        md.lemma_wf();
    }
    let pointer = pointer_size_bytes(md);
    let def = md.type_definition(d);
    assert(definition_ok(md.tables().type_definitions[d as int], md.tables()));
    let header = Extent {
        actual_size: 2 * (pointer as u32),
        class_size: 2 * (pointer as u32),
        alignment: pointer,
        natural_alignment: pointer,
    };
    if def.is_value_type {
        Ok(Extent { actual_size: 0, class_size: 0, alignment: 1, natural_alignment: 0 })
    } else {
        match def.base_type {
            None => Ok(header),
            Some(b) => {
                assert(type_record_ok(
                    md.tables().types[b as int],
                    md.tables().type_definitions.len() as int,
                    md.tables().types.len() as int,
                ));
                match &md.get_tables().types[b as usize] {
                    TypeRecord::Definition(base) => {
                        if fuel == 0 {
                            Err(LayoutError::TooDeep)
                        } else {
                            let none: Vec<u32> = Vec::new();
                            assert(none@ =~= Seq::<u32>::empty());
                            match extent_for(md, *base, &none, fuel - 1) {
                                Ok(l) => Ok(l.extent),
                                Err(e) => Err(e),
                            }
                        }
                    },
                    TypeRecord::GenericInstance { definition_index, type_arguments } => {
                        if fuel == 0 {
                            Err(LayoutError::TooDeep)
                        } else {
                            let inner = substitute_all(md, args, type_arguments);
                            match extent_for(md, *definition_index, &inner, fuel - 1) {
                                Ok(l) => Ok(l.extent),
                                Err(e) => Err(e),
                            }
                        }
                    },
                    _ => Ok(header),
                }
            },
        }
    }
}

fn instance_shapes_for(md: &Metadata, d: u32, args: &Vec<u32>, fuel: usize) -> (r: Result<
    Vec<FieldShape>,
    LayoutError,
>)
    requires
        md.wf(),
        d < md.definitions().len(),
        all_below(args@, md.tables().types.len() as int),
    ensures
        match r {
            Ok(v) => instance_shapes(
                *md,
                d as int,
                args@,
                fuel as nat,
                md.definitions()[d as int].field_count as nat,
            ) == Ok::<Seq<FieldShape>, LayoutError>(v@),
            Err(e) => instance_shapes(
                *md,
                d as int,
                args@,
                fuel as nat,
                md.definitions()[d as int].field_count as nat,
            ) == Err::<Seq<FieldShape>, LayoutError>(e),
        },
    decreases fuel, 3nat, 0nat,
{
    proof {
        md.lemma_wf();
    }
    let def = md.type_definition(d);
    assert(definition_ok(md.tables().type_definitions[d as int], md.tables()));
    let start = def.field_start as usize;
    let count = def.field_count as usize;
    let mut out: Vec<FieldShape> = Vec::new();
    let mut k: usize = 0;
    while k < count
        invariant
            md.wf(),
            tables_ok(md.tables()),
            d < md.definitions().len(),
            *def == md.definitions()[d as int],
            all_below(args@, md.tables().types.len() as int),
            start == def.field_start,
            count == def.field_count,
            start + count <= md.tables().fields.len(),
            k <= count,
            instance_shapes(*md, d as int, args@, fuel as nat, k as nat) == Ok::<
                Seq<FieldShape>,
                LayoutError,
            >(out@),
        decreases count - k,
    {
        let f = &md.get_tables().fields[start + k];
        assert(md.tables().fields[start + k].type_index < md.tables().types.len());
        if !f.is_static {
            match shape_for(md, args, f.type_index, fuel) {
                Ok(s) => {
                    out.push(s);
                },
                Err(e) => {
                    proof {
                        lemma_shapes_fail(*md, d as int, args@, fuel as nat, (k + 1) as nat, count as nat);
                    }
                    return Err(e);
                },
            }
        }
        k += 1;
    }
    Ok(out)
}

/// A failure among the first fields is the failure of them all.
proof fn lemma_shapes_fail(md: Metadata, d: int, args: Seq<u32>, fuel: nat, k: nat, n: nat)
    requires
        k <= n,
        instance_shapes(md, d, args, fuel, k) is Err,
    ensures
        instance_shapes(md, d, args, fuel, n) == instance_shapes(md, d, args, fuel, k),
    decreases n,
{
    if k < n {
        lemma_shapes_fail(md, d, args, fuel, k, (n - 1) as nat);
    }
}

/// The extent and the field layout of definition `d`, instantiated with
/// `args`.
fn extent_for(md: &Metadata, d: u32, args: &Vec<u32>, fuel: usize) -> (r: Result<
    InstanceLayout,
    LayoutError,
>)
    requires
        md.wf(),
        d < md.definitions().len(),
        all_below(args@, md.tables().types.len() as int),
    ensures
        match r {
            Ok(l) => is_instance_layout(*md, d as int, args@, fuel as nat, l),
            Err(e) => extent_of(*md, d as int, args@, fuel as nat) == Err::<Extent, LayoutError>(e),
        },
    decreases fuel, 5nat, 0nat,
{
    proof {
        md.lemma_wf();
    }
    let parent = match inherited_extent_for(md, d, args, fuel) {
        Ok(p) => p,
        Err(e) => {
            return Err(e);
        },
    };
    let shapes = match instance_shapes_for(md, d, args, fuel) {
        Ok(s) => s,
        Err(e) => {
            return Err(e);
        },
    };
    let def = md.type_definition(d);
    let info = get_packing_info(def.bitfield, md.layout_parameters());
    match layout_fields(&shapes, parent.actual_size, parent.alignment, info.packing) {
        Err(e) => Err(e),
        Ok(layout) => {
            let class_size = if info.size_is_default {
                layout.class_size
            } else {
                match def.explicit_size {
                    Some(s) => s,
                    None => layout.class_size,
                }
            };
            let extent = Extent {
                actual_size: layout.actual_size,
                class_size,
                alignment: layout.minimum_alignment,
                natural_alignment: layout.natural_alignment,
            };
            Ok(InstanceLayout { extent, shapes, layout })
        },
    }
}

/// The layout of the instance fields of definition `d`, instantiated with
/// `args`, and what an instance takes. Value types embedded by value and base
/// types are followed to a depth of the number of definitions; a chain that
/// goes deeper does not end and is refused.
pub fn instance_layout(md: &Metadata, d: u32, args: &Vec<u32>) -> (r: Result<
    InstanceLayout,
    LayoutError,
>)
    requires
        md.wf(),
        d < md.definitions().len(),
        all_below(args@, md.tables().types.len() as int),
    ensures
        match r {
            Ok(l) => is_instance_layout(*md, d as int, args@, md.definitions().len(), l),
            Err(e) => extent_of(*md, d as int, args@, md.definitions().len()) == Err::<
                Extent,
                LayoutError,
            >(e),
        },
{
    extent_for(md, d, args, md.type_definition_count())
}

} // verus!
