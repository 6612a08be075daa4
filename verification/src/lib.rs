//! Greyhound polynomial commitments over the ring `Z_q[X] / (X^64 + 1)`, with the
//! Labrador argument that closes an evaluation proof.

pub mod bytes;
pub mod bytes_laws;
pub mod challenge;
pub mod challenge_laws;
pub mod commit;
pub mod commit_laws;
pub mod completeness;
pub mod error;
pub mod eval;
pub mod eval_check;
pub mod eval_laws;
pub mod fiat_shamir;
pub mod folding;
pub mod folding_check;
pub mod folding_complete;
pub mod folding_laws;
pub mod input;
pub mod input_laws;
pub mod labrador;
pub mod layout;
pub mod linalg;
pub mod linearity;
pub mod negative;
pub mod norm;
pub mod params;
pub mod pipeline;
pub mod poly;
pub mod prover;
pub mod relation_laws;
pub mod ring_laws;
pub mod round;
pub mod rq;
pub mod short;
pub mod sponge;
pub mod sums;
pub mod tamper;
pub mod transcript_laws;
pub mod verdict_laws;
pub mod zq;
