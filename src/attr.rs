//! Attributes: identified, optionally ignorable values attached to schema
//! entities, and the registry that says which identifier names which type
//! and where it may stand.
pub mod types;

use crate::error::{DecodeError, EncodeError};
use crate::file::{File, UseItem};
use crate::tydef::{Struct, Union};
use crate::uuid::{lemma_uuid_bytes, uuid_bytes, Uuid};
use crate::value::Function;
use crate::wire::{get_u32, put_bytes, put_u32, take};
use core::marker::PhantomData;
use types::{
    decode_value, encode_value, lemma_value_bytes_injective, is_value_bytes, same_value, value_bytes, value_kind, Align,
    AttributeKind, AttributeValue, DefinesBuiltinTypes, ExportInline, ItemDoc, OptionType,
    PolymorphicOption, SafetyHint, SubsystemDescriptor, Synthetic, SystemFunction, ToolComment,
};
use vstd::bytes::*;
use vstd::prelude::*;
use vstd::slice::slice_to_vec;

verus! {

/// The flag that lets a reader skip an attribute whose id it does not know.
pub const FLAG_IGNORE: u32 = 0x0000_0001;

/// The region reserved for a future type discriminant; it must be zero for
/// now.
pub const FLAG_TYPE_MASK: u32 = 0xFF80_0000;

/// Whether `bits` sets only bits that have a meaning today: the ignorable
/// bit alone.
pub open spec fn legal_flags(bits: u32) -> bool {
    bits == 0 || bits == FLAG_IGNORE
}

/// Whether `bits` has the ignorable bit set.
pub open spec fn ignorable(bits: u32) -> bool {
    bits & FLAG_IGNORE == FLAG_IGNORE
}

/// The flags of an attribute, as raw bits.
#[derive(Clone, Copy, Debug, PartialEq, Eq, Hash, Structural)]
pub struct AttributeFlags(pub u32);

impl AttributeFlags {
    /// No flag set.
    pub fn empty() -> (r: AttributeFlags)
        ensures
            r.0 == 0,
    {
        AttributeFlags(0)
    }

    /// The ignorable flag alone.
    pub fn ignore() -> (r: AttributeFlags)
        ensures
            r.0 == FLAG_IGNORE,
    {
        AttributeFlags(FLAG_IGNORE)
    }

    /// The raw bits.
    pub fn bits(&self) -> (r: u32)
        ensures
            r == self.0,
    {
        self.0
    }

    /// The flags that `bits` spells, if it sets no bit without a meaning.
    pub fn from_bits(bits: u32) -> (r: Option<AttributeFlags>)
        ensures
            r is Some <==> legal_flags(bits),
            r matches Some(f) ==> f.0 == bits,
    {
        if bits & !FLAG_IGNORE == 0 {
            assert(bits & !1u32 == 0 ==> bits == 0 || bits == 1) by (bit_vector);
            Some(AttributeFlags(bits))
        } else {
            assert(bits == 0 || bits == 1 ==> bits & !1u32 == 0) by (bit_vector);
            None
        }
    }

    /// Whether every bit of `other` is set here.
    pub fn contains(&self, other: AttributeFlags) -> (r: bool)
        ensures
            r == (self.0 & other.0 == other.0),
    {
        self.0 & other.0 == other.0
    }

    /// The bits set here or in `other`.
    pub fn union(self, other: AttributeFlags) -> (r: AttributeFlags)
        ensures
            r.0 == self.0 | other.0,
    {
        AttributeFlags(self.0 | other.0)
    }

    /// Whether the ignorable bit is set.
    pub fn is_ignorable(&self) -> (r: bool)
        ensures
            r == ignorable(self.0),
    {
        self.0 & FLAG_IGNORE == FLAG_IGNORE
    }
}

/// The kinds of schema entity that an attribute can be attached to.
#[derive(Clone, Copy, Debug, PartialEq, Eq, Hash, Structural)]
pub enum AttributeTargetKind {
    File,
    UseItem,
    Struct,
    Union,
    Enum,
    TypeAlias,
    Field,
    Variant,
    Const,
    Function,
    Param,
}

/// A schema entity type that carries attributes.
pub trait AttributeTarget {
    /// The kind of entity.
    spec fn target_kind() -> AttributeTargetKind;

    /// The kind of entity.
    fn kind() -> (r: AttributeTargetKind)
        ensures
            r == Self::target_kind(),
    ;
}

/// The identifier registered for each attribute type.
pub open spec fn kind_id(k: AttributeKind) -> Uuid {
    match k {
        AttributeKind::SafetyHint => Uuid { major: 0x8649000c_291a566c, minor: 0xb1710da3_3515ea61 },
        AttributeKind::OptionType => Uuid { major: 0x74404322_8d865623, minor: 0x93b02a86_59f9cd09 },
        AttributeKind::PolymorphicOption => Uuid { major: 0x3072a4e5_598e55dc, minor: 0x9824bbc1_da1ccaea },
        AttributeKind::ItemDoc => Uuid { major: 0xa5a3cce8_4f495084, minor: 0x97613660_3109808a },
        AttributeKind::SubsystemDescriptor => Uuid { major: 0x50f98361_bbf65f10, minor: 0x85947354_b4c7c313 },
        AttributeKind::SystemFunction => Uuid { major: 0xc130fb9b_ed3f55e7, minor: 0x9bf92ae1_63bfc4d3 },
        AttributeKind::ExportInline => Uuid { major: 0xdf372d18_045d5d4e, minor: 0x8aad26db_0300c707 },
        AttributeKind::DefinesBuiltinTypes => Uuid { major: 0x360cb09a_155e5bc9, minor: 0xac7bd8cb_6662687a },
        AttributeKind::ToolComment => Uuid { major: 0xd6ade778_923c573d, minor: 0x8c88948f_b053d49b },
        AttributeKind::Align => Uuid { major: 0xc9c12154_f3815d48, minor: 0x88e1ce31_d9d1bd1f },
        AttributeKind::Synthetic => Uuid { major: 0x5d4ceb6f_dc75581c, minor: 0xba8ed014_a77091fe },
    }
}

/// Whether the attribute type `k` may be attached to entities of kind `t`.
pub open spec fn kind_allows(k: AttributeKind, t: AttributeTargetKind) -> bool {
    match k {
        AttributeKind::SafetyHint => t == AttributeTargetKind::Function,
        AttributeKind::OptionType => t == AttributeTargetKind::Struct,
        AttributeKind::PolymorphicOption => t == AttributeTargetKind::Struct,
        AttributeKind::ItemDoc => true,
        AttributeKind::SubsystemDescriptor => t == AttributeTargetKind::File,
        AttributeKind::SystemFunction => t == AttributeTargetKind::Function,
        AttributeKind::ExportInline => t == AttributeTargetKind::UseItem,
        AttributeKind::DefinesBuiltinTypes => t == AttributeTargetKind::File,
        AttributeKind::ToolComment => t == AttributeTargetKind::File,
        AttributeKind::Align => t == AttributeTargetKind::Struct || t == AttributeTargetKind::Union,
        AttributeKind::Synthetic => true,
    }
}

/// Whether the registry maps `id`, on entities of kind `t`, to the type `k`.
pub open spec fn resolves(id: Uuid, t: AttributeTargetKind, k: AttributeKind) -> bool {
    kind_id(k) == id && kind_allows(k, t)
}

/// The type that the registry gives `id` on entities of kind `t`, if any.
pub open spec fn resolve_spec(id: Uuid, t: AttributeTargetKind) -> Option<AttributeKind> {
    if exists|k: AttributeKind| #[trigger] resolves(id, t, k) {
        Some(choose|k: AttributeKind| #[trigger] resolves(id, t, k))
    } else {
        None
    }
}

/// No two registered types share an identifier.
pub proof fn lemma_ids_distinct(j: AttributeKind, k: AttributeKind)
    ensures
        kind_id(j) == kind_id(k) ==> j == k,
{
}

impl AttributeKind {
    /// The identifier registered for this type.
    pub fn id(self) -> (r: Uuid)
        ensures
            r == kind_id(self),
    {
        match self {
            AttributeKind::SafetyHint => Uuid { major: 0x8649000c_291a566c, minor: 0xb1710da3_3515ea61 },
            AttributeKind::OptionType => Uuid { major: 0x74404322_8d865623, minor: 0x93b02a86_59f9cd09 },
            AttributeKind::PolymorphicOption => Uuid { major: 0x3072a4e5_598e55dc, minor: 0x9824bbc1_da1ccaea },
            AttributeKind::ItemDoc => Uuid { major: 0xa5a3cce8_4f495084, minor: 0x97613660_3109808a },
            AttributeKind::SubsystemDescriptor => Uuid { major: 0x50f98361_bbf65f10, minor: 0x85947354_b4c7c313 },
            AttributeKind::SystemFunction => Uuid { major: 0xc130fb9b_ed3f55e7, minor: 0x9bf92ae1_63bfc4d3 },
            AttributeKind::ExportInline => Uuid { major: 0xdf372d18_045d5d4e, minor: 0x8aad26db_0300c707 },
            AttributeKind::DefinesBuiltinTypes => Uuid { major: 0x360cb09a_155e5bc9, minor: 0xac7bd8cb_6662687a },
            AttributeKind::ToolComment => Uuid { major: 0xd6ade778_923c573d, minor: 0x8c88948f_b053d49b },
            AttributeKind::Align => Uuid { major: 0xc9c12154_f3815d48, minor: 0x88e1ce31_d9d1bd1f },
            AttributeKind::Synthetic => Uuid { major: 0x5d4ceb6f_dc75581c, minor: 0xba8ed014_a77091fe },
        }
    }

    /// Whether this type may be attached to entities of kind `t`.
    pub fn allows(self, t: AttributeTargetKind) -> (r: bool)
        ensures
            r == kind_allows(self, t),
    {
        match self {
            AttributeKind::SafetyHint => t == AttributeTargetKind::Function,
            AttributeKind::OptionType => t == AttributeTargetKind::Struct,
            AttributeKind::PolymorphicOption => t == AttributeTargetKind::Struct,
            AttributeKind::ItemDoc => true,
            AttributeKind::SubsystemDescriptor => t == AttributeTargetKind::File,
            AttributeKind::SystemFunction => t == AttributeTargetKind::Function,
            AttributeKind::ExportInline => t == AttributeTargetKind::UseItem,
            AttributeKind::DefinesBuiltinTypes => t == AttributeTargetKind::File,
            AttributeKind::ToolComment => t == AttributeTargetKind::File,
            AttributeKind::Align => t == AttributeTargetKind::Struct || t == AttributeTargetKind::Union,
            AttributeKind::Synthetic => true,
        }
    }

    /// The registered type whose identifier is `id`.
    pub fn lookup(id: Uuid) -> (r: Option<AttributeKind>)
        ensures
            r matches Some(k) ==> kind_id(k) == id,
            r is None ==> forall|k: AttributeKind| kind_id(k) != id,
    {
        if id.major == 0x8649000c_291a566c && id.minor == 0xb1710da3_3515ea61 {
            return Some(AttributeKind::SafetyHint);
        }
        if id.major == 0x74404322_8d865623 && id.minor == 0x93b02a86_59f9cd09 {
            return Some(AttributeKind::OptionType);
        }
        if id.major == 0x3072a4e5_598e55dc && id.minor == 0x9824bbc1_da1ccaea {
            return Some(AttributeKind::PolymorphicOption);
        }
        if id.major == 0xa5a3cce8_4f495084 && id.minor == 0x97613660_3109808a {
            return Some(AttributeKind::ItemDoc);
        }
        if id.major == 0x50f98361_bbf65f10 && id.minor == 0x85947354_b4c7c313 {
            return Some(AttributeKind::SubsystemDescriptor);
        }
        if id.major == 0xc130fb9b_ed3f55e7 && id.minor == 0x9bf92ae1_63bfc4d3 {
            return Some(AttributeKind::SystemFunction);
        }
        if id.major == 0xdf372d18_045d5d4e && id.minor == 0x8aad26db_0300c707 {
            return Some(AttributeKind::ExportInline);
        }
        if id.major == 0x360cb09a_155e5bc9 && id.minor == 0xac7bd8cb_6662687a {
            return Some(AttributeKind::DefinesBuiltinTypes);
        }
        if id.major == 0xd6ade778_923c573d && id.minor == 0x8c88948f_b053d49b {
            return Some(AttributeKind::ToolComment);
        }
        if id.major == 0xc9c12154_f3815d48 && id.minor == 0x88e1ce31_d9d1bd1f {
            return Some(AttributeKind::Align);
        }
        if id.major == 0x5d4ceb6f_dc75581c && id.minor == 0xba8ed014_a77091fe {
            return Some(AttributeKind::Synthetic);
        }
        None
    }

    /// The registered type that `id` names on entities of kind `t`: only a
    /// type that may stand there is found.
    pub fn resolve(id: Uuid, t: AttributeTargetKind) -> (r: Option<AttributeKind>)
        ensures
            r == resolve_spec(id, t),
    {
        match AttributeKind::lookup(id) {
            Some(k) => {
                if k.allows(t) {
                    assert(resolves(id, t, k));
                    proof {
                        let j = choose|j: AttributeKind| #[trigger] resolves(id, t, j);
                        lemma_ids_distinct(j, k);
                    }
                    Some(k)
                } else {
                    assert forall|j: AttributeKind| !#[trigger] resolves(id, t, j) by {
                        lemma_ids_distinct(j, k);
                    }
                    None
                }
            },
            None => None,
        }
    }
}

/// A registered attribute type.
pub trait AttributeType: Sized {
    /// The registry's tag for the type.
    spec fn type_kind() -> AttributeKind;

    /// The value as one of the closed set of attribute values.
    spec fn wrap(self) -> AttributeValue;

    /// The registry's tag for the type.
    fn kind() -> (r: AttributeKind)
        ensures
            r == Self::type_kind(),
    ;

    /// The value as one of the closed set of attribute values.
    fn into_value(self) -> (r: AttributeValue)
        ensures
            r == self.wrap(),
            value_kind(r) == Self::type_kind(),
    ;

    /// The value of this type that `v` holds, if it holds one.
    fn from_value(v: &AttributeValue) -> (r: Option<&Self>)
        ensures
            r is Some <==> value_kind(*v) == Self::type_kind(),
            r matches Some(x) ==> x.wrap() == *v,
    ;
}

/// An attribute type that may be attached to entities of type `T`.
pub trait Target<T: AttributeTarget>: AttributeType {
    /// The registry allows the type on `T`.
    proof fn lemma_allowed()
        ensures
            kind_allows(Self::type_kind(), T::target_kind()),
    ;
}

impl AttributeType for SafetyHint {
    open spec fn type_kind() -> AttributeKind {
        AttributeKind::SafetyHint
    }

    open spec fn wrap(self) -> AttributeValue {
        AttributeValue::SafetyHint(self)
    }

    fn kind() -> (r: AttributeKind) {
        AttributeKind::SafetyHint
    }

    fn into_value(self) -> (r: AttributeValue) {
        AttributeValue::SafetyHint(self)
    }

    fn from_value(v: &AttributeValue) -> (r: Option<&Self>) {
        match v {
            AttributeValue::SafetyHint(x) => Some(x),
            _ => None,
        }
    }
}

impl Target<Function> for SafetyHint {
    proof fn lemma_allowed() {
    }
}

impl AttributeType for OptionType {
    open spec fn type_kind() -> AttributeKind {
        AttributeKind::OptionType
    }

    open spec fn wrap(self) -> AttributeValue {
        AttributeValue::OptionType(self)
    }

    fn kind() -> (r: AttributeKind) {
        AttributeKind::OptionType
    }

    fn into_value(self) -> (r: AttributeValue) {
        AttributeValue::OptionType(self)
    }

    fn from_value(v: &AttributeValue) -> (r: Option<&Self>) {
        match v {
            AttributeValue::OptionType(x) => Some(x),
            _ => None,
        }
    }
}

impl Target<Struct> for OptionType {
    proof fn lemma_allowed() {
    }
}

impl AttributeType for PolymorphicOption {
    open spec fn type_kind() -> AttributeKind {
        AttributeKind::PolymorphicOption
    }

    open spec fn wrap(self) -> AttributeValue {
        AttributeValue::PolymorphicOption(self)
    }

    fn kind() -> (r: AttributeKind) {
        AttributeKind::PolymorphicOption
    }

    fn into_value(self) -> (r: AttributeValue) {
        AttributeValue::PolymorphicOption(self)
    }

    fn from_value(v: &AttributeValue) -> (r: Option<&Self>) {
        match v {
            AttributeValue::PolymorphicOption(x) => Some(x),
            _ => None,
        }
    }
}

impl Target<Struct> for PolymorphicOption {
    proof fn lemma_allowed() {
    }
}

impl AttributeType for ItemDoc {
    open spec fn type_kind() -> AttributeKind {
        AttributeKind::ItemDoc
    }

    open spec fn wrap(self) -> AttributeValue {
        AttributeValue::ItemDoc(self)
    }

    fn kind() -> (r: AttributeKind) {
        AttributeKind::ItemDoc
    }

    fn into_value(self) -> (r: AttributeValue) {
        AttributeValue::ItemDoc(self)
    }

    fn from_value(v: &AttributeValue) -> (r: Option<&Self>) {
        match v {
            AttributeValue::ItemDoc(x) => Some(x),
            _ => None,
        }
    }
}

impl<T: AttributeTarget> Target<T> for ItemDoc {
    proof fn lemma_allowed() {
    }
}

impl AttributeType for SubsystemDescriptor {
    open spec fn type_kind() -> AttributeKind {
        AttributeKind::SubsystemDescriptor
    }

    open spec fn wrap(self) -> AttributeValue {
        AttributeValue::SubsystemDescriptor(self)
    }

    fn kind() -> (r: AttributeKind) {
        AttributeKind::SubsystemDescriptor
    }

    fn into_value(self) -> (r: AttributeValue) {
        AttributeValue::SubsystemDescriptor(self)
    }

    fn from_value(v: &AttributeValue) -> (r: Option<&Self>) {
        match v {
            AttributeValue::SubsystemDescriptor(x) => Some(x),
            _ => None,
        }
    }
}

impl Target<File> for SubsystemDescriptor {
    proof fn lemma_allowed() {
    }
}

impl AttributeType for SystemFunction {
    open spec fn type_kind() -> AttributeKind {
        AttributeKind::SystemFunction
    }

    open spec fn wrap(self) -> AttributeValue {
        AttributeValue::SystemFunction(self)
    }

    fn kind() -> (r: AttributeKind) {
        AttributeKind::SystemFunction
    }

    fn into_value(self) -> (r: AttributeValue) {
        AttributeValue::SystemFunction(self)
    }

    fn from_value(v: &AttributeValue) -> (r: Option<&Self>) {
        match v {
            AttributeValue::SystemFunction(x) => Some(x),
            _ => None,
        }
    }
}

impl Target<Function> for SystemFunction {
    proof fn lemma_allowed() {
    }
}

impl AttributeType for ExportInline {
    open spec fn type_kind() -> AttributeKind {
        AttributeKind::ExportInline
    }

    open spec fn wrap(self) -> AttributeValue {
        AttributeValue::ExportInline(self)
    }

    fn kind() -> (r: AttributeKind) {
        AttributeKind::ExportInline
    }

    fn into_value(self) -> (r: AttributeValue) {
        AttributeValue::ExportInline(self)
    }

    fn from_value(v: &AttributeValue) -> (r: Option<&Self>) {
        match v {
            AttributeValue::ExportInline(x) => Some(x),
            _ => None,
        }
    }
}

impl Target<UseItem> for ExportInline {
    proof fn lemma_allowed() {
    }
}

impl AttributeType for DefinesBuiltinTypes {
    open spec fn type_kind() -> AttributeKind {
        AttributeKind::DefinesBuiltinTypes
    }

    open spec fn wrap(self) -> AttributeValue {
        AttributeValue::DefinesBuiltinTypes(self)
    }

    fn kind() -> (r: AttributeKind) {
        AttributeKind::DefinesBuiltinTypes
    }

    fn into_value(self) -> (r: AttributeValue) {
        AttributeValue::DefinesBuiltinTypes(self)
    }

    fn from_value(v: &AttributeValue) -> (r: Option<&Self>) {
        match v {
            AttributeValue::DefinesBuiltinTypes(x) => Some(x),
            _ => None,
        }
    }
}

impl Target<File> for DefinesBuiltinTypes {
    proof fn lemma_allowed() {
    }
}

impl AttributeType for ToolComment {
    open spec fn type_kind() -> AttributeKind {
        AttributeKind::ToolComment
    }

    open spec fn wrap(self) -> AttributeValue {
        AttributeValue::ToolComment(self)
    }

    fn kind() -> (r: AttributeKind) {
        AttributeKind::ToolComment
    }

    fn into_value(self) -> (r: AttributeValue) {
        AttributeValue::ToolComment(self)
    }

    fn from_value(v: &AttributeValue) -> (r: Option<&Self>) {
        match v {
            AttributeValue::ToolComment(x) => Some(x),
            _ => None,
        }
    }
}

impl Target<File> for ToolComment {
    proof fn lemma_allowed() {
    }
}

impl AttributeType for Align {
    open spec fn type_kind() -> AttributeKind {
        AttributeKind::Align
    }

    open spec fn wrap(self) -> AttributeValue {
        AttributeValue::Align(self)
    }

    fn kind() -> (r: AttributeKind) {
        AttributeKind::Align
    }

    fn into_value(self) -> (r: AttributeValue) {
        AttributeValue::Align(self)
    }

    fn from_value(v: &AttributeValue) -> (r: Option<&Self>) {
        match v {
            AttributeValue::Align(x) => Some(x),
            _ => None,
        }
    }
}

impl Target<Struct> for Align {
    proof fn lemma_allowed() {
    }
}

impl Target<Union> for Align {
    proof fn lemma_allowed() {
    }
}

impl AttributeType for Synthetic {
    open spec fn type_kind() -> AttributeKind {
        AttributeKind::Synthetic
    }

    open spec fn wrap(self) -> AttributeValue {
        AttributeValue::Synthetic(self)
    }

    fn kind() -> (r: AttributeKind) {
        AttributeKind::Synthetic
    }

    fn into_value(self) -> (r: AttributeValue) {
        AttributeValue::Synthetic(self)
    }

    fn from_value(v: &AttributeValue) -> (r: Option<&Self>) {
        match v {
            AttributeValue::Synthetic(x) => Some(x),
            _ => None,
        }
    }
}

impl<T: AttributeTarget> Target<T> for Synthetic {
    proof fn lemma_allowed() {
    }
}

/// What an attribute carries: a value of its registered type, or the raw
/// bytes of a value that this reader does not know.
#[derive(Clone, Debug)]
pub enum Payload {
    Real(AttributeValue),
    Unknown(Vec<u8>),
}

/// The bytes of a payload.
pub open spec fn payload_bytes(p: Payload) -> Seq<u8> {
    match p {
        Payload::Real(v) => value_bytes(v),
        Payload::Unknown(b) => b@,
    }
}

/// Whether two payloads hold the same value, or the same raw bytes.
pub open spec fn same_payload(p: Payload, q: Payload) -> bool {
    match (p, q) {
        (Payload::Real(v), Payload::Real(w)) => same_value(v, w),
        (Payload::Unknown(a), Payload::Unknown(b)) => a@ == b@,
        _ => false,
    }
}

/// The wire form of an attribute: its id, its flags, the payload's length
/// as a `u32`, and the payload.
pub open spec fn attribute_bytes(id: Uuid, flags: u32, p: Payload) -> Seq<u8> {
    uuid_bytes(id) + spec_u32_to_le_bytes(flags) + spec_u32_to_le_bytes(
        payload_bytes(p).len() as u32,
    ) + payload_bytes(p)
}

/// The id written at `q`.
pub open spec fn id_at(b: Seq<u8>, q: int) -> Uuid {
    Uuid {
        major: spec_u64_from_le_bytes(b.subrange(q + 8, q + 16)),
        minor: spec_u64_from_le_bytes(b.subrange(q, q + 8)),
    }
}

/// The flags written after the id at `q`.
pub open spec fn flags_at(b: Seq<u8>, q: int) -> u32 {
    spec_u32_from_le_bytes(b.subrange(q + 16, q + 20))
}

/// The payload length written after the flags.
pub open spec fn len_at(b: Seq<u8>, q: int) -> int {
    spec_u32_from_le_bytes(b.subrange(q + 20, q + 24)) as int
}

/// Whether the whole attribute at `q`, payload included, lies inside `b`.
pub open spec fn fits_at(b: Seq<u8>, q: int) -> bool {
    q + 24 <= b.len() && q + 24 + len_at(b, q) <= b.len()
}

/// The payload bytes of the attribute at `q`.
pub open spec fn body_at(b: Seq<u8>, q: int) -> Seq<u8> {
    b.subrange(q + 24, q + 24 + len_at(b, q))
}

/// Whether the attribute at `q` decodes on entities of kind `t`: its flags
/// are legal, it lies inside `b`, and its payload is one value of the type
/// that the registry gives its id there, or that id is unknown there and the
/// attribute is ignorable.
pub open spec fn decodes_at(b: Seq<u8>, q: int, t: AttributeTargetKind) -> bool {
    &&& q + 20 <= b.len()
    &&& legal_flags(flags_at(b, q))
    &&& fits_at(b, q)
    &&& match resolve_spec(id_at(b, q), t) {
        Some(k) => is_value_bytes(k, body_at(b, q)),
        None => ignorable(flags_at(b, q)),
    }
}

/// A typed attribute attached to entities of type `Targ`.
#[derive(Debug)]
pub struct Attribute<Targ> {
    id: Uuid,
    flags: AttributeFlags,
    payload: Payload,
    target: PhantomData<Targ>,
}

impl<Targ> Clone for Attribute<Targ> {
    /// A copy that holds a copy of the payload.
    fn clone(&self) -> (r: Attribute<Targ>)
        ensures
            r.spec_id() == self.spec_id(),
            r.spec_flags() == self.spec_flags(),
    {
        Attribute {
            id: self.id,
            flags: self.flags,
            payload: self.payload.clone(),
            target: PhantomData,
        }
    }
}

impl<Targ> Attribute<Targ> {
    /// The attribute's id.
    pub closed spec fn spec_id(&self) -> Uuid {
        self.id
    }

    /// The attribute's flags.
    pub closed spec fn spec_flags(&self) -> AttributeFlags {
        self.flags
    }

    /// The attribute's payload.
    pub closed spec fn spec_payload(&self) -> Payload {
        self.payload
    }

    /// The wire form of the attribute.
    pub open spec fn spec_bytes(&self) -> Seq<u8> {
        attribute_bytes(self.spec_id(), self.spec_flags().0, self.spec_payload())
    }

    /// Whether two attributes have the same id, flags and payload.
    pub open spec fn same(&self, other: &Attribute<Targ>) -> bool {
        &&& self.spec_id() == other.spec_id()
        &&& self.spec_flags() == other.spec_flags()
        &&& same_payload(self.spec_payload(), other.spec_payload())
    }

    /// The attribute that the attribute at `q` of `b` decodes to, with the
    /// position after it.
    pub open spec fn decoded_from(&self, b: Seq<u8>, q: int, t: AttributeTargetKind, p: int) -> bool {
        &&& p == q + 24 + len_at(b, q)
        &&& self.spec_id() == id_at(b, q)
        &&& self.spec_flags().0 == flags_at(b, q)
        &&& match resolve_spec(id_at(b, q), t) {
            Some(k) => self.spec_payload() matches Payload::Real(v) && value_kind(v) == k
                && value_bytes(v) == body_at(b, q),
            None => self.spec_payload() matches Payload::Unknown(d) && d@ == body_at(b, q),
        }
    }
}

/// The value of type `T` that an attribute holds, as seen by a downcast: its
/// id must be the one registered for `T`, and its payload a value of `T`.
pub open spec fn downcast_spec<Targ, T: AttributeType>(a: Attribute<Targ>) -> Option<AttributeValue> {
    if a.spec_id() == kind_id(T::type_kind()) {
        match a.spec_payload() {
            Payload::Real(v) => if value_kind(v) == T::type_kind() {
                Some(v)
            } else {
                None
            },
            Payload::Unknown(_) => None,
        }
    } else {
        None
    }
}

impl<Targ: AttributeTarget> Attribute<Targ> {
    /// An attribute holding `x`, with no flag set.
    pub fn new<T: Target<Targ>>(x: T) -> (r: Attribute<Targ>)
        ensures
            r.spec_id() == kind_id(T::type_kind()),
            r.spec_flags().0 == 0,
            r.spec_payload() == Payload::Real(x.wrap()),
            value_kind(x.wrap()) == T::type_kind(),
            kind_allows(T::type_kind(), Targ::target_kind()),
    {
        proof {
            T::lemma_allowed();
        }
        let k = T::kind();
        Attribute {
            id: k.id(),
            flags: AttributeFlags::empty(),
            payload: Payload::Real(x.into_value()),
            target: PhantomData,
        }
    }

    /// The value of type `T`, if the attribute's id is the one registered
    /// for `T` and it holds a value of `T`.
    pub fn downcast<T: Target<Targ>>(&self) -> (r: Option<&T>)
        ensures
            r is Some <==> downcast_spec::<Targ, T>(*self) is Some,
            r matches Some(x) ==> downcast_spec::<Targ, T>(*self) == Some(x.wrap()),
    {
        let k = T::kind();
        if self.id != k.id() {
            return None;
        }
        match &self.payload {
            Payload::Real(v) => T::from_value(v),
            Payload::Unknown(_) => None,
        }
    }

    /// The attribute's id.
    pub fn id(&self) -> (r: &Uuid)
        ensures
            *r == self.spec_id(),
    {
        &self.id
    }

    /// The attribute's flags.
    pub fn flags(&self) -> (r: &AttributeFlags)
        ensures
            *r == self.spec_flags(),
    {
        &self.flags
    }

    /// The attribute's flags, to change them.
    pub fn flags_mut(&mut self) -> (r: &mut AttributeFlags)
        ensures
            *r == old(self).spec_flags(),
            final(self).spec_flags() == *final(r),
            final(self).spec_id() == old(self).spec_id(),
            final(self).spec_payload() == old(self).spec_payload(),
    {
        &mut self.flags
    }

    /// The attribute with `additional_flags` set as well.
    pub fn with_flags(self, additional_flags: AttributeFlags) -> (r: Attribute<Targ>)
        ensures
            r.spec_flags().0 == self.spec_flags().0 | additional_flags.0,
            r.spec_id() == self.spec_id(),
            r.spec_payload() == self.spec_payload(),
    {
        let mut s = self;
        s.flags = s.flags.union(additional_flags);
        s
    }

    /// The payload.
    pub fn payload(&self) -> (r: &Payload)
        ensures
            *r == self.spec_payload(),
    {
        &self.payload
    }

    /// Appends the wire form of the attribute; fails only where the payload
    /// is longer than a `u32` can count, and then writes nothing.
    pub fn encode(&self, out: &mut Vec<u8>) -> (r: Result<(), EncodeError>)
        ensures
            r is Ok <==> payload_bytes(self.spec_payload()).len() <= u32::MAX,
            r is Ok ==> final(out)@ == old(out)@ + self.spec_bytes(),
            r is Err ==> final(out)@ == old(out)@ && r == Err::<(), _>(EncodeError::PayloadTooLarge),
    {
        let mut body: Vec<u8> = Vec::new();
        match &self.payload {
            Payload::Real(v) => {
                encode_value(v, &mut body);
            },
            Payload::Unknown(bytes) => {
                put_bytes(&mut body, bytes.as_slice());
            },
        }
        assert(body@ =~= payload_bytes(self.payload));
        if body.len() > u32::MAX as usize {
            return Err(EncodeError::PayloadTooLarge);
        }
        let ghost start = out@;
        self.id.encode(out);
        put_u32(out, self.flags.0);
        put_u32(out, body.len() as u32);
        put_bytes(out, body.as_slice());
        assert(out@ =~= start + self.spec_bytes());
        Ok(())
    }

    /// Reads the attribute at `pos`, for an entity of type `Targ`, with the
    /// position after it.
    pub fn decode(b: &[u8], pos: usize) -> (r: Result<(Attribute<Targ>, usize), DecodeError>)
        ensures
            pos + 20 > b@.len() ==> r == Err::<(Attribute<Targ>, usize), _>(
                DecodeError::UnexpectedEnd,
            ),
            pos + 20 <= b@.len() && !legal_flags(flags_at(b@, pos as int)) ==> r == Err::<
                (Attribute<Targ>, usize),
                _,
            >(DecodeError::IllegalFlags(flags_at(b@, pos as int))),
            pos + 20 <= b@.len() && legal_flags(flags_at(b@, pos as int)) && !fits_at(
                b@,
                pos as int,
            ) ==> r == Err::<(Attribute<Targ>, usize), _>(DecodeError::UnexpectedEnd),
            pos + 20 <= b@.len() && legal_flags(flags_at(b@, pos as int)) && fits_at(b@, pos as int)
                && resolve_spec(id_at(b@, pos as int), Targ::target_kind()) is None && !ignorable(
                flags_at(b@, pos as int),
            ) ==> r == Err::<(Attribute<Targ>, usize), _>(
                DecodeError::NotRecognized(id_at(b@, pos as int)),
            ),
            pos + 20 <= b@.len() && legal_flags(flags_at(b@, pos as int)) && fits_at(b@, pos as int)
                && resolve_spec(id_at(b@, pos as int), Targ::target_kind()) is Some
                && !is_value_bytes(
                resolve_spec(id_at(b@, pos as int), Targ::target_kind())->0,
                body_at(b@, pos as int),
            ) ==> r == Err::<
                (Attribute<Targ>, usize),
                _,
            >(DecodeError::BadPayload(id_at(b@, pos as int))),
            r is Ok <==> decodes_at(b@, pos as int, Targ::target_kind()),
            r matches Ok((a, p)) ==> a.decoded_from(b@, pos as int, Targ::target_kind(), p as int)
                && a.spec_bytes() == b@.subrange(pos as int, p as int),
    {
        proof {
            lemma_auto_spec_u32_to_from_le_bytes();
            lemma_auto_spec_u64_to_from_le_bytes();
        }
        let _len = b.len();
        let (id, p) = match Uuid::decode(b, pos) {
            Some(x) => x,
            None => {
                return Err(DecodeError::UnexpectedEnd);
            },
        };
        assert(id == id_at(b@, pos as int)) by {
            assert(b@.subrange(pos as int, pos + 8) =~= uuid_bytes(id).subrange(0, 8));
            assert(b@.subrange(pos + 8, pos + 16) =~= uuid_bytes(id).subrange(8, 16));
            assert(uuid_bytes(id).subrange(0, 8) =~= spec_u64_to_le_bytes(id.minor));
            assert(uuid_bytes(id).subrange(8, 16) =~= spec_u64_to_le_bytes(id.major));
        }
        let bits = match get_u32(b, p) {
            Some(x) => x,
            None => {
                return Err(DecodeError::UnexpectedEnd);
            },
        };
        assert(bits == flags_at(b@, pos as int)) by {
            assert(p == pos + 16);
            assert(spec_u32_to_le_bytes(bits) == b@.subrange(pos + 16, pos + 20));
            lemma_auto_spec_u32_to_from_le_bytes();
            assert(spec_u32_to_le_bytes(bits).len() == 4);
        }
        let flags = match AttributeFlags::from_bits(bits) {
            Some(f) => f,
            None => {
                return Err(DecodeError::IllegalFlags(bits));
            },
        };
        let n = match get_u32(b, p + 4) {
            Some(x) => x,
            None => {
                return Err(DecodeError::UnexpectedEnd);
            },
        };
        assert(n == len_at(b@, pos as int)) by {
            assert(spec_u32_to_le_bytes(n) == b@.subrange(pos + 20, pos + 24));
            lemma_auto_spec_u32_to_from_le_bytes();
            assert(spec_u32_to_le_bytes(n).len() == 4);
        }
        let data = match take(b, p + 8, n as usize) {
            Some(d) => d,
            None => {
                return Err(DecodeError::UnexpectedEnd);
            },
        };
        let end = p + 8 + n as usize;
        let t = Targ::kind();
        let payload = match AttributeKind::resolve(id, t) {
            Some(k) => match decode_value(k, data) {
                Some(v) => Payload::Real(v),
                None => {
                    return Err(DecodeError::BadPayload(id));
                },
            },
            None => {
                if !flags.is_ignorable() {
                    return Err(DecodeError::NotRecognized(id));
                }
                Payload::Unknown(slice_to_vec(data))
            },
        };
        assert(payload_bytes(payload) == data@);
        let a = Attribute { id, flags, payload, target: PhantomData };
        assert(a.spec_bytes() =~= b@.subrange(pos as int, end as int));
        Ok((a, end))
    }
}

/// The fields read back from the wire form of an attribute are its own.
proof fn lemma_fields_at<Targ>(a: Attribute<Targ>, b: Seq<u8>)
    requires
        b == a.spec_bytes(),
        payload_bytes(a.spec_payload()).len() <= u32::MAX,
    ensures
        id_at(b, 0) == a.spec_id(),
        flags_at(b, 0) == a.spec_flags().0,
        len_at(b, 0) == payload_bytes(a.spec_payload()).len(),
        fits_at(b, 0),
        body_at(b, 0) == payload_bytes(a.spec_payload()),
        b.len() == 24 + payload_bytes(a.spec_payload()).len(),
{
    lemma_auto_spec_u32_to_from_le_bytes();
    lemma_auto_spec_u64_to_from_le_bytes();
    let id = a.spec_id();
    let pb = payload_bytes(a.spec_payload());
    lemma_uuid_bytes(id, id);
    assert(spec_u64_to_le_bytes(id.minor).len() == 8);
    assert(spec_u64_to_le_bytes(id.major).len() == 8);
    assert(spec_u32_to_le_bytes(a.spec_flags().0).len() == 4);
    assert(spec_u32_to_le_bytes(pb.len() as u32).len() == 4);
    assert(b.subrange(0, 8) =~= spec_u64_to_le_bytes(id.minor));
    assert(b.subrange(8, 16) =~= spec_u64_to_le_bytes(id.major));
    assert(b.subrange(16, 20) =~= spec_u32_to_le_bytes(a.spec_flags().0));
    assert(b.subrange(20, 24) =~= spec_u32_to_le_bytes(pb.len() as u32));
    assert(body_at(b, 0) =~= pb);
}

/// An attribute of a registered type, attached where the registry allows
/// that type and with legal flags, decodes from its own wire form, and every
/// attribute it decodes to is the same attribute and reads the whole form.
pub proof fn lemma_round_trip<Targ: AttributeTarget>(a: Attribute<Targ>)
    requires
        a.spec_payload() is Real,
        a.spec_id() == kind_id(value_kind(a.spec_payload()->Real_0)),
        kind_allows(value_kind(a.spec_payload()->Real_0), Targ::target_kind()),
        legal_flags(a.spec_flags().0),
        payload_bytes(a.spec_payload()).len() <= u32::MAX,
    ensures
        decodes_at(a.spec_bytes(), 0, Targ::target_kind()),
        forall|c: Attribute<Targ>, p: int|
            #[trigger] c.decoded_from(a.spec_bytes(), 0, Targ::target_kind(), p) ==> c.same(&a)
                && p == a.spec_bytes().len(),
{
    let b = a.spec_bytes();
    let t = Targ::target_kind();
    let v = a.spec_payload()->Real_0;
    let k = value_kind(v);
    lemma_fields_at(a, b);
    assert(resolves(a.spec_id(), t, k));
    let j = choose|j: AttributeKind| #[trigger] resolves(a.spec_id(), t, j);
    lemma_ids_distinct(j, k);
    assert(resolve_spec(a.spec_id(), t) == Some(k));
    assert(is_value_bytes(k, body_at(b, 0)));
    assert forall|c: Attribute<Targ>, p: int|
        #[trigger] c.decoded_from(b, 0, t, p) implies c.same(&a) && p == b.len() by {
        let w = c.spec_payload()->Real_0;
        lemma_value_bytes_injective(w, v);
    }
}

/// Whatever an attribute decodes to writes back the bytes it was read
/// from; in particular an attribute of an id unknown on its entity, kept
/// because it is ignorable, holds those bytes unread and writes them back
/// unchanged.
pub proof fn lemma_decoded_rewrites<Targ: AttributeTarget>(b: Seq<u8>, q: int, c: Attribute<Targ>, p: int)
    requires
        0 <= q,
        decodes_at(b, q, Targ::target_kind()),
        c.decoded_from(b, q, Targ::target_kind(), p),
    ensures
        c.spec_bytes() == b.subrange(q, p),
        resolve_spec(id_at(b, q), Targ::target_kind()) is None ==> c.spec_payload() is Unknown
            && ignorable(c.spec_flags().0),
{
    lemma_auto_spec_u32_to_from_le_bytes();
    lemma_auto_spec_u64_to_from_le_bytes();
    let id = c.spec_id();
    let n = len_at(b, q);
    let pb = payload_bytes(c.spec_payload());
    assert(b.subrange(q + 20, q + 24).len() == 4);
    assert(b.subrange(q + 16, q + 20).len() == 4);
    assert(b.subrange(q, q + 8).len() == 8);
    assert(b.subrange(q + 8, q + 16).len() == 8);
    assert(pb == body_at(b, q));
    assert(pb.len() == n);
    assert(spec_u32_to_le_bytes(pb.len() as u32) == b.subrange(q + 20, q + 24));
    assert(c.spec_bytes() =~= b.subrange(q, p));
}

/// An attribute type that the registry allows only elsewhere is not found
/// on entities of kind `t`, whatever else the attribute holds.
pub proof fn lemma_target_restriction(k: AttributeKind, t: AttributeTargetKind)
    requires
        !kind_allows(k, t),
    ensures
        resolve_spec(kind_id(k), t) is None,
{
    assert forall|j: AttributeKind| !#[trigger] resolves(kind_id(k), t, j) by {
        lemma_ids_distinct(j, k);
    }
}

/// An attribute made from a value of type `A` never downcasts to a type
/// `B` that is registered under another id.
pub proof fn lemma_downcast_safety<Targ, A: AttributeType, B: AttributeType>(a: A, c: Attribute<Targ>)
    requires
        kind_id(A::type_kind()) != kind_id(B::type_kind()),
        c.spec_id() == kind_id(A::type_kind()),
        c.spec_payload() == Payload::Real(a.wrap()),
    ensures
        downcast_spec::<Targ, B>(c) is None,
{
}

} // verus!
