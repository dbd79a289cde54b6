//! Canonical encoding of Groth16 verifier artifacts.
//!
//! A proving pipeline produces a verifying key, proofs and public inputs as
//! points on a pairing-friendly curve and as scalar-field elements.  This
//! crate turns those values, given as plain big-endian byte strings, into the
//! fixed JSON wire documents a downstream verifier-contract generator
//! consumes, and into a lossless compressed binary form used for internal
//! persistence and round-trip checking.

use vstd::prelude::*;

pub mod binary;
pub mod curve_id;
pub mod error;
pub mod field;
pub mod hex;
pub mod json;
pub mod point;
pub mod verifier_config;
pub mod verifier_inputs;

pub use curve_id::ElipticCurveId;
pub use error::DecodeError;

verus! {

} // verus!
