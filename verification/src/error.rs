//! Decoding failures.

use vstd::prelude::*;

verus! {

/// Why a decode operation rejected its input.
///
/// Encoding over well-typed in-memory values is total; only the decode paths
/// can fail, and they report the failure to the caller instead of guessing.
#[derive(Copy, Clone, Debug, PartialEq, Eq, Structural)]
pub enum DecodeError {
    /// An integer curve identifier outside the recognized set.
    UnknownCurveId(u8),
    /// Compressed binary bytes whose length or tag bits are inconsistent
    /// with the expected shape.
    MalformedEncoding,
}

} // verus!
