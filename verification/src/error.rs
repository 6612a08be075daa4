//! The ways in which the library refuses its input.
use vstd::prelude::*;

verus! {

/// Why an operation could not be carried out.
#[derive(Clone, Copy, PartialEq, Eq, Structural, Debug)]
pub enum GreyhoundError {
    /// Sizes that do not fit together.
    InvalidDimensions,
    /// The witness of an argument is longer than the norm bound allows.
    WitnessNorm,
    /// The evaluation that the prover computed differs from the one it claims.
    ClaimMismatch,
    /// A transcript ends before all prover messages were read.
    TranscriptTooShort,
    /// A transcript holds other prover messages than those of the statement and the proof.
    TranscriptMismatch,
    /// `1 + x^64` has no inverse modulo `q`.
    NotInvertible,
}

} // verus!
