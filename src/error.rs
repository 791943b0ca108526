//! Errors of the codec and of the pairing engine.
use vstd::prelude::*;

verus! {

/// Why an encoding or an engine call was refused.
#[derive(Clone, Copy, Debug, PartialEq, Eq, Structural)]
pub enum Error {
    /// Wrong length, inconsistent flag bits (a compression flag that does not
    /// match the form, a sign flag on an uncompressed encoding, or the infinity
    /// flag beside non-zero payload bits), or a coordinate not below the modulus.
    MalformedEncoding,
    /// The decoded coordinates do not satisfy the curve equation, or no root
    /// exists for a compressed `x`.
    NotOnCurve,
    /// An on-curve point outside the prime-order subgroup, where validation was asked.
    NotInSubgroup,
    /// The pairing engine could not process the request.
    EngineFailure,
}

} // verus!
