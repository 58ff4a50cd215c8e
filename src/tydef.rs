//! Type definitions: aliases, structs, unions and enums.
use crate::attr::{Attribute, AttributeTarget, AttributeTargetKind};
use crate::uses::{Expr, IntType, Type};
use vstd::prelude::*;

verus! {

/// A named type definition with a number of type parameters.
#[derive(Debug)]
pub struct TypeDef {
    pub name: String,
    pub num_params: u32,
    pub body: TypeDefBody,
}

/// What a type definition defines.
#[derive(Debug)]
pub enum TypeDefBody {
    Alias(TypeAlias),
    Struct(Struct),
    Union(Union),
    Enum(Enum),
}

/// Another name for a type.
#[derive(Debug)]
pub struct TypeAlias {
    pub attrs: Vec<Attribute<TypeAlias>>,
    pub alias: Type,
}

/// A struct.
#[derive(Debug)]
pub struct Struct {
    pub attrs: Vec<Attribute<Struct>>,
    pub body: StructBody,
}

/// A struct's fields, or an opaque body of an optional size type.
#[derive(Debug)]
pub enum StructBody {
    Fields(StructFields),
    Opaque(Option<Type>),
}

/// Fields and trailing padding.
#[derive(Debug)]
pub struct StructFields {
    pub field: Vec<Field>,
    pub pad: Option<Type>,
}

/// A named field.
#[derive(Debug)]
pub struct Field {
    pub attrs: Vec<Attribute<Field>>,
    pub name: String,
    pub ty: Type,
}

/// A union.
#[derive(Debug)]
pub struct Union {
    pub attrs: Vec<Attribute<Union>>,
    pub fields: StructFields,
}

/// An enum over an integer type.
#[derive(Debug)]
pub struct Enum {
    pub attrs: Vec<Attribute<Enum>>,
    pub underlying: IntType,
    pub variants: Vec<Variant>,
}

/// A named variant and its discriminant.
#[derive(Debug)]
pub struct Variant {
    pub attrs: Vec<Attribute<Variant>>,
    pub name: String,
    pub discrim: Expr,
}

impl AttributeTarget for Struct {
    open spec fn target_kind() -> AttributeTargetKind {
        AttributeTargetKind::Struct
    }

    fn kind() -> (r: AttributeTargetKind) {
        AttributeTargetKind::Struct
    }
}

impl AttributeTarget for Union {
    open spec fn target_kind() -> AttributeTargetKind {
        AttributeTargetKind::Union
    }

    fn kind() -> (r: AttributeTargetKind) {
        AttributeTargetKind::Union
    }
}

impl AttributeTarget for Enum {
    open spec fn target_kind() -> AttributeTargetKind {
        AttributeTargetKind::Enum
    }

    fn kind() -> (r: AttributeTargetKind) {
        AttributeTargetKind::Enum
    }
}

impl AttributeTarget for TypeAlias {
    open spec fn target_kind() -> AttributeTargetKind {
        AttributeTargetKind::TypeAlias
    }

    fn kind() -> (r: AttributeTargetKind) {
        AttributeTargetKind::TypeAlias
    }
}

impl AttributeTarget for Field {
    open spec fn target_kind() -> AttributeTargetKind {
        AttributeTargetKind::Field
    }

    fn kind() -> (r: AttributeTargetKind) {
        AttributeTargetKind::Field
    }
}

impl AttributeTarget for Variant {
    open spec fn target_kind() -> AttributeTargetKind {
        AttributeTargetKind::Variant
    }

    fn kind() -> (r: AttributeTargetKind) {
        AttributeTargetKind::Variant
    }
}

} // verus!
