use vstd::prelude::*;

pub mod cbor;
pub mod path;
pub mod sign_request;
pub mod signature;
pub mod boundary;
pub mod laws;

verus! {

/// Errors reported by the codecs and by the boundary adapter.
///
/// Decoding recovers locally from every optional or defaultable absence and
/// only reports an error for a truly mandatory field or an undecodable
/// payload; see the decoders for the exact conditions.
#[derive(Debug, Clone, PartialEq, Eq)]
pub enum CodecError {
    /// The payload could not be read as the expected binary structure.
    InvalidCbor,
    /// The payload was readable but its top-level value is not a map.
    NotAMap,
    /// A sign request payload lacked its mandatory payload bytes.
    MissingSignData,
    /// A signature payload lacked its mandatory signature bytes.
    MissingSignature,
    /// The payload kind tag is outside the known range; carries the tag.
    InvalidDataType(u64),
    /// A derivation path component is not an unsigned index, optionally
    /// hardened; carries the offending component.
    PathSyntax(String),
    /// Host-supplied text that should spell bytes is not valid hexadecimal.
    InvalidHex,
}

} // verus!
