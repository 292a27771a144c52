//! Type identity: the key under which every emittable type is registered.
use vstd::prelude::*;

verus! {

/// The runtime-foundational kinds whose shape is authored by hand.
#[derive(Clone, Copy, Debug, PartialEq, Eq, Hash, Structural)]
pub enum SpecialKind {
    ObjectRoot,
    ValueTypeRoot,
    DelegateRoot,
    EnumRoot,
    ArrayRoot,
}

/// The identity of one emittable type. Two requests with the same tag denote
/// the same node.
#[derive(Clone, Debug, PartialEq, Eq, Hash)]
pub enum TypeTag {
    /// A type definition, by its index in the definition table.
    DefinitionRef(u32),
    /// A generic definition applied to concrete arguments, each an index into
    /// the type table.
    GenericInstantiation { definition_index: u32, type_arguments: Vec<u32> },
    /// A synthetic entry that stands for a runtime-special kind.
    Grouped(SpecialKind),
}

/// The mathematical value of a tag.
pub enum TagView {
    DefinitionRef(u32),
    GenericInstantiation { definition_index: u32, type_arguments: Seq<u32> },
    Grouped(SpecialKind),
}

impl TagView {
    /// The type definition that a tag is made from, if any.
    pub open spec fn definition(self) -> Option<u32> {
        match self {
            TagView::DefinitionRef(d) => Some(d),
            TagView::GenericInstantiation { definition_index, .. } => Some(definition_index),
            TagView::Grouped(_) => None,
        }
    }
}

impl View for TypeTag {
    type V = TagView;

    open spec fn view(&self) -> TagView {
        match *self {
            TypeTag::DefinitionRef(d) => TagView::DefinitionRef(d),
            TypeTag::GenericInstantiation { definition_index, type_arguments } => {
                TagView::GenericInstantiation { definition_index, type_arguments: type_arguments@ }
            },
            TypeTag::Grouped(k) => TagView::Grouped(k),
        }
    }
}

impl TypeTag {
    /// Whether two tags are the same identity.
    pub fn same_as(&self, other: &TypeTag) -> (r: bool)
        ensures
            r == (self@ == other@),
    {
        match self {
            TypeTag::DefinitionRef(a) => match other {
                TypeTag::DefinitionRef(b) => *a == *b,
                _ => false,
            },
            TypeTag::GenericInstantiation { definition_index: a, type_arguments: x } => match other {
                TypeTag::GenericInstantiation { definition_index: b, type_arguments: y } => {
                    let same_arguments = *x == *y;
                    proof {
                        if same_arguments {
                            assert(x@ =~= y@);
                        }
                    }
                    *a == *b && same_arguments
                },
                _ => false,
            },
            TypeTag::Grouped(a) => match other {
                TypeTag::Grouped(b) => *a == *b,
                _ => false,
            },
        }
    }

    /// A second handle on the same identity.
    pub fn duplicate(&self) -> (r: TypeTag)
        ensures
            r@ == self@,
    {
        match self {
            TypeTag::DefinitionRef(d) => TypeTag::DefinitionRef(*d),
            TypeTag::GenericInstantiation { definition_index, type_arguments } => {
                TypeTag::GenericInstantiation {
                    definition_index: *definition_index,
                    type_arguments: type_arguments.clone(),
                }
            },
            TypeTag::Grouped(k) => TypeTag::Grouped(*k),
        }
    }

    /// The type definition that the tag is made from, if any.
    pub fn definition_index(&self) -> (r: Option<u32>)
        ensures
            r == self@.definition(),
    {
        match self {
            TypeTag::DefinitionRef(d) => Some(*d),
            TypeTag::GenericInstantiation { definition_index, .. } => Some(*definition_index),
            TypeTag::Grouped(_) => None,
        }
    }
}

} // verus!
