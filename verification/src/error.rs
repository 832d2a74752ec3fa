//! The closed set of decode failure kinds.
//!
//! Every decoder in this crate reports malformed input through exactly these
//! variants; no codec invents further ones.  Encoding never fails.

use vstd::prelude::*;

verus! {

/// A decode failure.
///
/// Decode operations always return a `Result` carrying one of these values;
/// malformed input is reported to the immediate caller and never repaired.
#[derive(Clone, Copy, Debug, PartialEq, Eq, Structural)]
pub enum DecoderError {
    /// The payload or list exceeds the maximum size representable by the
    /// target type.
    RlpIsTooBig,
    /// A fixed-size payload is shorter than required.
    RlpIsTooShort,
    /// The payload carries a redundant leading zero byte: a non-minimal,
    /// non-canonical encoding, rejected outright.
    RlpInvalidIndirection,
    /// The list child count does not match the expected arity for the
    /// target type.
    RlpIncorrectListLen,
    /// The node is structurally of the wrong kind for the target type, or
    /// the payload fails type-specific content validation (for a string,
    /// invalid UTF-8).
    RlpExpectedToBeData,
}

} // verus!
