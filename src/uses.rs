//! Types, signatures and constant expressions as they are used.
use crate::attr::{Attribute, AttributeTarget, AttributeTargetKind};
use crate::uuid::Uuid;
use vstd::prelude::*;

verus! {

/// A type as it is written in a definition.
#[derive(Debug)]
pub enum Type {
    Named(String, Option<Vec<Type>>),
    Param(u32, Option<Box<Type>>),
    Int(IntType),
    Pointer(PointerKind, Box<Type>),
    Func(Signature),
    Void,
    Never,
    Byte,
    Char(IntType),
    Array(Box<ArrayType>),
}

/// An array of a base type and a length.
#[derive(Debug)]
pub struct ArrayType {
    pub base: Type,
    pub len: Expr,
}

/// An integer type: its signedness and its width.
#[derive(Clone, Copy, Debug, PartialEq, Eq, Hash, Structural)]
pub struct IntType {
    pub signed: bool,
    pub bits: IntBits,
}

/// The width of an integer type: the platform's long, or a number of bits
/// (never zero).
#[derive(Clone, Copy, Debug, PartialEq, Eq, Hash, Structural)]
pub enum IntBits {
    Long,
    Bits(u8),
}

/// What a pointer points through.
#[derive(Clone, Copy, Debug, PartialEq, Eq, Hash, Structural)]
pub enum PointerKind {
    Const,
    Mut,
    Special(Uuid),
}

/// Parameters and a return type.
#[derive(Debug)]
pub struct Signature {
    pub params: Vec<Param>,
    pub retty: Box<Type>,
}

/// A function parameter.
#[derive(Debug)]
pub struct Param {
    pub attrs: Vec<Attribute<Param>>,
    pub name: Option<String>,
    pub ty: Type,
}

/// A constant expression.
#[derive(Debug)]
pub enum Expr {
    IntLiteral(IntType, u128),
    UuidLiteral(Uuid),
    StringLiteral(String),
    Const(String),
    BinOp(BinaryOp, Box<Expr>, Box<Expr>),
    UnaryOp(UnaryOp, Box<Expr>),
    SpecialConstant(SpecialConst),
}

/// A constant whose value depends on the platform.
#[derive(Clone, Copy, Debug, PartialEq, Eq, Hash, Structural)]
#[non_exhaustive]
pub enum SpecialConst {
    SizeofPointer,
}

/// A binary operator.
#[derive(Clone, Copy, Debug, PartialEq, Eq, Hash, Structural)]
pub enum BinaryOp {
    Add,
    Sub,
    Mul,
    Div,
    And,
    Or,
    Xor,
    ShiftLeft,
    ShiftRight,
}

/// A unary operator.
#[derive(Clone, Copy, Debug, PartialEq, Eq, Hash, Structural)]
pub enum UnaryOp {
    Not,
    Neg,
}

impl IntType {
    /// A signed or unsigned integer type of `bits` bits.
    pub fn with_bits(signed: bool, bits: u8) -> (r: IntType)
        requires
            bits != 0,
        ensures
            r.signed == signed,
            r.bits == IntBits::Bits(bits),
    {
        IntType { signed, bits: IntBits::Bits(bits) }
    }

    /// A signed or unsigned integer type as wide as the platform's long.
    pub fn long(signed: bool) -> (r: IntType)
        ensures
            r.signed == signed,
            r.bits == IntBits::Long,
    {
        IntType { signed, bits: IntBits::Long }
    }
}

impl AttributeTarget for Param {
    open spec fn target_kind() -> AttributeTargetKind {
        AttributeTargetKind::Param
    }

    fn kind() -> (r: AttributeTargetKind) {
        AttributeTargetKind::Param
    }
}

} // verus!
