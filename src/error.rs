//! Why a decode or an encode failed.
use crate::uuid::Uuid;
use vstd::prelude::*;

verus! {

/// A structural rule that a byte stream broke.
#[derive(Clone, Copy, Debug, PartialEq, Eq, Structural)]
pub enum DecodeError {
    /// The bytes ended before the value did.
    UnexpectedEnd,
    /// The first bytes are not the format's magic number.
    InvalidMagic,
    /// The file claims a version that the reader cannot accept.
    IncompatibleVersion { required: u16, found: u16 },
    /// An attribute's flags set bits that have no meaning yet.
    IllegalFlags(u32),
    /// An attribute's id is unknown here and its flags do not allow skipping it.
    NotRecognized(Uuid),
    /// A recognised attribute's payload is not exactly one value of its type.
    BadPayload(Uuid),
}

/// Why a value could not be written.
#[derive(Clone, Copy, Debug, PartialEq, Eq, Structural)]
pub enum EncodeError {
    /// An attribute payload does not fit a 32-bit length.
    PayloadTooLarge,
}

} // verus!
