//! The failure taxonomy shared by every decoder of this crate.

use vstd::prelude::*;

verus! {

/// Why a decoder could not produce a value.
#[derive(Debug, Clone, Copy, PartialEq, Eq, Structural)]
pub enum ParseError {
    /// The bytes supplied end before the structural unit being decoded does
    /// (fixed fields, a declared payload, or one option entry). More input
    /// could complete it; with none to come, the capture is truncated.
    Incomplete,
    /// Enough bytes are present, but they break a structural rule.
    Error,
    /// An unrecoverable failure. The block and option decoders never
    /// produce it; it exists so that callers can carry the outer framing's
    /// verdicts in the same type.
    Failure,
}

} // verus!
