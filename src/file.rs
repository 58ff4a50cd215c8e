//! A whole metadata file and its use items.
use crate::attr::{Attribute, AttributeTarget, AttributeTargetKind};
use crate::header::Header;
use crate::tydef::TypeDef;
use crate::uuid::Uuid;
use crate::value::Value;
use vstd::prelude::*;

verus! {

/// One metadata file: its envelope, its identity, its attributes and the
/// items it declares.
#[derive(Debug)]
pub struct File {
    pub header: Header,
    pub file_id: Uuid,
    pub attributes: Vec<Attribute<File>>,
    pub uses: Vec<UseItem>,
    pub types: Vec<TypeDef>,
    pub values: Vec<Value>,
}

/// An import of another module's path.
#[derive(Clone, Debug)]
pub struct UseItem {
    pub attrs: Vec<Attribute<UseItem>>,
    pub path: Vec<String>,
}

impl AttributeTarget for File {
    open spec fn target_kind() -> AttributeTargetKind {
        AttributeTargetKind::File
    }

    fn kind() -> (r: AttributeTargetKind) {
        AttributeTargetKind::File
    }
}

impl AttributeTarget for UseItem {
    open spec fn target_kind() -> AttributeTargetKind {
        AttributeTargetKind::UseItem
    }

    fn kind() -> (r: AttributeTargetKind) {
        AttributeTargetKind::UseItem
    }
}

} // verus!
