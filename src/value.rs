//! Constants and functions that a file declares.
use crate::attr::{Attribute, AttributeTarget, AttributeTargetKind};
use crate::uses::{Expr, Signature, Type};
use vstd::prelude::*;

verus! {

/// A named value.
#[derive(Debug)]
pub struct Value {
    pub name: String,
    pub body: ValueBody,
}

/// What a value is.
#[derive(Debug)]
pub enum ValueBody {
    Const(Const),
    Function(Function),
}

/// A constant of a type.
#[derive(Debug)]
pub struct Const {
    pub attrs: Vec<Attribute<Const>>,
    pub ty: Type,
    pub val: Expr,
}

/// A function and its signature.
#[derive(Debug)]
pub struct Function {
    pub attrs: Vec<Attribute<Function>>,
    pub signature: Signature,
}

impl AttributeTarget for Const {
    open spec fn target_kind() -> AttributeTargetKind {
        AttributeTargetKind::Const
    }

    fn kind() -> (r: AttributeTargetKind) {
        AttributeTargetKind::Const
    }
}

impl AttributeTarget for Function {
    open spec fn target_kind() -> AttributeTargetKind {
        AttributeTargetKind::Function
    }

    fn kind() -> (r: AttributeTargetKind) {
        AttributeTargetKind::Function
    }
}

} // verus!
