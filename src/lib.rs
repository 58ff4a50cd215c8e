//! Reading and writing interface metadata: versioned file envelopes,
//! typed and forward-compatible attributes, and path-keyed file bundles.
pub mod attr;
pub mod bundle;
pub mod error;
pub mod file;
pub mod header;
pub mod tydef;
pub mod uses;
pub mod uuid;
pub mod value;
pub mod wire;
