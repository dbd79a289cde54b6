//! The closed set of supported curve families and its stable integer code.

use vstd::prelude::*;

use crate::error::DecodeError;

verus! {

/// Which pairing-friendly curve family produced the values of a document.
///
/// The integer code returned by [`ElipticCurveId::encode`] is part of the
/// external wire contract and never changes once published.  The integer
/// form is the authoritative wire form of this crate; the snake_case name
/// returned by [`ElipticCurveId::name`] is informational only.
#[derive(Copy, Clone, Debug, PartialEq, Eq, Structural)]
pub enum ElipticCurveId {
    Bn254,
    Bls12_381,
}

impl ElipticCurveId {
    /// The fixed integer code of this curve identifier.
    pub open spec fn spec_encode(self) -> u8 {
        match self {
            ElipticCurveId::Bn254 => 0,
            ElipticCurveId::Bls12_381 => 1,
        }
    }

    /// The fixed snake_case name of this curve identifier.
    pub open spec fn spec_name(self) -> Seq<char> {
        match self {
            ElipticCurveId::Bn254 => "bn254"@,
            ElipticCurveId::Bls12_381 => "bls12_381"@,
        }
    }

    /// Total and pure: returns the fixed integer code of the identifier.
    pub fn encode(&self) -> (id: u8)
        ensures
            id == self.spec_encode(),
    {
        match self {
            ElipticCurveId::Bn254 => 0,
            ElipticCurveId::Bls12_381 => 1,
        }
    }

    /// What decoding an integer code yields: the identifier carrying that
    /// code, or `UnknownCurveId` for every integer outside the set.
    pub open spec fn spec_decode(id: u8) -> Result<ElipticCurveId, DecodeError> {
        if id == 0 {
            Ok(ElipticCurveId::Bn254)
        } else if id == 1 {
            Ok(ElipticCurveId::Bls12_381)
        } else {
            Err(DecodeError::UnknownCurveId(id))
        }
    }

    /// Maps an integer code back to the identifier it encodes.
    ///
    /// Every integer outside the recognized set is a hard error carrying the
    /// rejected value; the decoder never guesses or clamps.
    pub fn decode(id: u8) -> (r: Result<ElipticCurveId, DecodeError>)
        ensures
            r == Self::spec_decode(id),
    {
        match id {
            0 => Ok(ElipticCurveId::Bn254),
            1 => Ok(ElipticCurveId::Bls12_381),
            _ => Err(DecodeError::UnknownCurveId(id)),
        }
    }

    /// The snake_case textual name of the curve family.
    pub fn name(&self) -> (r: String)
        ensures
            r@ == self.spec_name(),
    {
        match self {
            ElipticCurveId::Bn254 => String::from_str("bn254"),
            ElipticCurveId::Bls12_381 => String::from_str("bls12_381"),
        }
    }
}

/// Law: decoding the code of a supported identifier gives that identifier
/// back, and decoding any integer outside the supported set fails with
/// `UnknownCurveId` carrying that integer.
pub proof fn lemma_curve_id_round_trip(c: ElipticCurveId, id: u8)
    ensures
        ElipticCurveId::spec_decode(c.spec_encode()) == Ok::<ElipticCurveId, DecodeError>(c),
        id != 0 && id != 1 ==> ElipticCurveId::spec_decode(id) == Err::<
            ElipticCurveId,
            DecodeError,
        >(DecodeError::UnknownCurveId(id)),
{
}

} // verus!
