//! The verifier configuration document: a curve identifier and a verifying
//! key, serialized once per circuit.

use vstd::prelude::*;

use crate::curve_id::ElipticCurveId;
use crate::json::{
    append_curve_id, append_g1_json, append_g2_json, curve_id_decimal, g1_json, g1_jsons, g2_json,
    join_comma, lemma_join_comma_step,
};
use crate::point::{g1_views, G1Affine, G1View, G2Affine, G2View};
use vstd::string::StringExecFns;

verus! {

/// The five structural components of a Groth16 verifying key.
///
/// `ic` indexes public inputs positionally: its order is significant, it is
/// never reordered or deduplicated, and its length is one more than the
/// number of public inputs of the circuit.
#[derive(Clone, Debug, PartialEq, Eq)]
pub struct VerifyingKey {
    pub alpha_g1: G1Affine,
    pub beta_g2: G2Affine,
    pub gamma_g2: G2Affine,
    pub delta_g2: G2Affine,
    pub ic: Vec<G1Affine>,
}

impl VerifyingKey {
    /// Whether every stored point has canonical coordinates.
    pub open spec fn wf(self) -> bool {
        self.alpha_g1.wf() && self.beta_g2.wf() && self.gamma_g2.wf() && self.delta_g2.wf()
            && forall|i: int| 0 <= i < self.ic@.len() ==> (#[trigger] self.ic@[i]).wf()
    }

    /// The JSON object of the verifying key, fields in fixed order.
    pub open spec fn spec_json(self) -> Seq<char> {
        "{\"alpha_g1\":"@ + g1_json(self.alpha_g1) + ",\"beta_g2\":"@ + g2_json(self.beta_g2)
            + ",\"gamma_g2\":"@ + g2_json(self.gamma_g2) + ",\"delta_g2\":"@ + g2_json(
            self.delta_g2,
        ) + ",\"ic\":["@ + join_comma(g1_jsons(self.ic@)) + "]}"@
    }
}

/// The mathematical value of a verifying key.
pub struct VerifyingKeyView {
    pub alpha_g1: G1View,
    pub beta_g2: G2View,
    pub gamma_g2: G2View,
    pub delta_g2: G2View,
    pub ic: Seq<G1View>,
}

impl View for VerifyingKey {
    type V = VerifyingKeyView;

    open spec fn view(&self) -> VerifyingKeyView {
        VerifyingKeyView {
            alpha_g1: self.alpha_g1@,
            beta_g2: self.beta_g2@,
            gamma_g2: self.gamma_g2@,
            delta_g2: self.delta_g2@,
            ic: g1_views(self.ic@),
        }
    }
}

/// Everything needed to initialize a verifier contract for a specific
/// Groth16 circuit: the curve identifier and the verifying key.
///
/// The document owns copies of its data, is immutable after construction,
/// and serializes deterministically; the integer form of the curve
/// identifier is the authoritative wire form.
#[derive(Clone, Debug, PartialEq)]
pub struct Groth16VerifierConfiguration {
    eliptic_curve_id: ElipticCurveId,
    verifying_key: VerifyingKey,
}

/// The mathematical value of a configuration document.
pub struct ConfigurationView {
    pub eliptic_curve_id: ElipticCurveId,
    pub verifying_key: VerifyingKeyView,
}

impl View for Groth16VerifierConfiguration {
    type V = ConfigurationView;

    open spec fn view(&self) -> ConfigurationView {
        ConfigurationView {
            eliptic_curve_id: self.spec_eliptic_curve_id(),
            verifying_key: self.spec_verifying_key()@,
        }
    }
}

impl Groth16VerifierConfiguration {
    /// The stored curve identifier.
    pub closed spec fn spec_eliptic_curve_id(self) -> ElipticCurveId {
        self.eliptic_curve_id
    }

    /// The stored verifying key.
    pub closed spec fn spec_verifying_key(self) -> VerifyingKey {
        self.verifying_key
    }

    /// Pure construction: stores exactly the given identifier and key.
    /// The caller is responsible for passing a key that actually belongs to
    /// the named curve; no validation is performed.
    pub fn new(eliptic_curve_id: ElipticCurveId, verifying_key: VerifyingKey) -> (r: Self)
        ensures
            r.spec_eliptic_curve_id() == eliptic_curve_id,
            r.spec_verifying_key() == verifying_key,
    {
        Self { eliptic_curve_id, verifying_key }
    }

    /// The curve identifier of the document.
    pub fn eliptic_curve_id(&self) -> (r: ElipticCurveId)
        ensures
            r == self.spec_eliptic_curve_id(),
    {
        self.eliptic_curve_id
    }

    /// A borrowed view of the stored verifying key.
    pub fn verifying_key(&self) -> (r: &VerifyingKey)
        ensures
            *r == self.spec_verifying_key(),
    {
        &self.verifying_key
    }

    /// The complete JSON document, character for character.
    pub open spec fn spec_json(self) -> Seq<char> {
        "{\"eliptic_curve_id\":"@ + curve_id_decimal(self.spec_eliptic_curve_id())
            + ",\"verifying_key\":"@ + self.spec_verifying_key().spec_json() + "}"@
    }

    /// Serializes the document: deterministic, field order fixed, the same
    /// logical input always yields identical text.
    #[verifier::rlimit(60)]
    pub fn serialize(&self) -> (r: String)
        ensures
            r@ == self.spec_json(),
    {
        let mut s = String::from_str("{\"eliptic_curve_id\":");
        append_curve_id(&mut s, &self.eliptic_curve_id);
        s.append(",\"verifying_key\":");
        s.append("{\"alpha_g1\":");
        append_g1_json(&mut s, &self.verifying_key.alpha_g1);
        s.append(",\"beta_g2\":");
        append_g2_json(&mut s, &self.verifying_key.beta_g2);
        s.append(",\"gamma_g2\":");
        append_g2_json(&mut s, &self.verifying_key.gamma_g2);
        s.append(",\"delta_g2\":");
        append_g2_json(&mut s, &self.verifying_key.delta_g2);
        s.append(",\"ic\":[");
        let ghost prefix = s@;
        let ic = &self.verifying_key.ic;
        let mut i: usize = 0;
        while i < ic.len()
            invariant
                0 <= i <= ic@.len(),
                prefix == "{\"eliptic_curve_id\":"@ + curve_id_decimal(self.spec_eliptic_curve_id())
                    + ",\"verifying_key\":"@ + "{\"alpha_g1\":"@ + g1_json(
                    self.spec_verifying_key().alpha_g1,
                ) + ",\"beta_g2\":"@ + g2_json(self.spec_verifying_key().beta_g2)
                    + ",\"gamma_g2\":"@ + g2_json(self.spec_verifying_key().gamma_g2)
                    + ",\"delta_g2\":"@ + g2_json(self.spec_verifying_key().delta_g2)
                    + ",\"ic\":["@,
                ic@ == self.spec_verifying_key().ic@,
                s@ == prefix + join_comma(g1_jsons(ic@).take(i as int)),
            decreases ic@.len() - i,
        {
            if i > 0 {
                s.append(",");
            }
            append_g1_json(&mut s, &ic[i]);
            proof {
                let parts = g1_jsons(ic@);
                lemma_join_comma_step(parts, i as int);
                assert(parts[i as int] == g1_json(ic@[i as int]));
                assert(s@ =~= prefix + join_comma(parts.take(i + 1)));
            }
            i = i + 1;
        }
        s.append("]}");
        s.append("}");
        proof {
            assert(g1_jsons(ic@).take(ic@.len() as int) =~= g1_jsons(ic@));
            assert(s@ =~= self.spec_json());
        }
        s
    }
}

} // verus!
