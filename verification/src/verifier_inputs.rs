//! The verifier inputs document: a curve identifier, a proof and the
//! ordered public inputs, serialized once per proving run.

use vstd::prelude::*;

use crate::curve_id::ElipticCurveId;
use crate::field::{fe_views, FieldElement};
use crate::json::{
    append_curve_id, append_g1_json, append_g2_json, append_quoted_hex, curve_id_decimal, g1_json,
    g2_json, join_comma, lemma_join_comma_step, scalar_jsons,
};
use crate::point::{G1Affine, G1View, G2Affine, G2View};
use vstd::string::StringExecFns;

verus! {

/// The three points of a Groth16 proof.
#[derive(Clone, Debug, PartialEq, Eq)]
pub struct Proof {
    pub a: G1Affine,
    pub b: G2Affine,
    pub c: G1Affine,
}

impl Proof {
    /// Whether every stored point has canonical coordinates.
    pub open spec fn wf(self) -> bool {
        self.a.wf() && self.b.wf() && self.c.wf()
    }

    /// The JSON object of the proof, fields in fixed order.
    pub open spec fn spec_json(self) -> Seq<char> {
        "{\"a\":"@ + g1_json(self.a) + ",\"b\":"@ + g2_json(self.b) + ",\"c\":"@ + g1_json(self.c)
            + "}"@
    }
}

/// The mathematical value of a proof.
pub struct ProofView {
    pub a: G1View,
    pub b: G2View,
    pub c: G1View,
}

impl View for Proof {
    type V = ProofView;

    open spec fn view(&self) -> ProofView {
        ProofView { a: self.a@, b: self.b@, c: self.c@ }
    }
}

/// Everything needed to check one proving run against a verifier contract:
/// the curve identifier, the proof, and the public inputs in the order they
/// were fed to the prover (matching `ic[1..]` of the configuration).
///
/// The document owns copies of its data, is immutable after construction,
/// and serializes deterministically; the integer form of the curve
/// identifier is the authoritative wire form.
#[derive(Clone, Debug, PartialEq)]
pub struct Groth16VerifierInputs {
    eliptic_curve_id: ElipticCurveId,
    proof: Proof,
    public_inputs: Vec<FieldElement>,
}

/// The mathematical value of an inputs document.
pub struct VerifierInputsView {
    pub eliptic_curve_id: ElipticCurveId,
    pub proof: ProofView,
    pub public_inputs: Seq<Seq<u8>>,
}

impl View for Groth16VerifierInputs {
    type V = VerifierInputsView;

    open spec fn view(&self) -> VerifierInputsView {
        VerifierInputsView {
            eliptic_curve_id: self.spec_eliptic_curve_id(),
            proof: self.spec_proof()@,
            public_inputs: fe_views(self.spec_public_inputs()),
        }
    }
}

impl Groth16VerifierInputs {
    /// The stored curve identifier.
    pub closed spec fn spec_eliptic_curve_id(self) -> ElipticCurveId {
        self.eliptic_curve_id
    }

    /// The stored proof.
    pub closed spec fn spec_proof(self) -> Proof {
        self.proof
    }

    /// The stored public inputs, in order.
    pub closed spec fn spec_public_inputs(self) -> Seq<FieldElement> {
        self.public_inputs@
    }

    /// Pure construction: stores exactly the given identifier, proof and
    /// public inputs.  The caller is responsible for their consistency with
    /// the named curve; no validation is performed.
    pub fn new(
        eliptic_curve_id: ElipticCurveId,
        proof: Proof,
        public_inputs: Vec<FieldElement>,
    ) -> (r: Self)
        ensures
            r.spec_eliptic_curve_id() == eliptic_curve_id,
            r.spec_proof() == proof,
            r.spec_public_inputs() == public_inputs@,
    {
        Self { eliptic_curve_id, proof, public_inputs }
    }

    /// The curve identifier of the document.
    pub fn eliptic_curve_id(&self) -> (r: ElipticCurveId)
        ensures
            r == self.spec_eliptic_curve_id(),
    {
        self.eliptic_curve_id
    }

    /// A borrowed view of the stored proof.
    pub fn groth16_proof(&self) -> (r: &Proof)
        ensures
            *r == self.spec_proof(),
    {
        &self.proof
    }

    /// A borrowed view of the stored public inputs.
    pub fn public_inputs(&self) -> (r: &Vec<FieldElement>)
        ensures
            r@ == self.spec_public_inputs(),
    {
        &self.public_inputs
    }

    /// The complete JSON document, character for character.
    pub open spec fn spec_json(self) -> Seq<char> {
        "{\"eliptic_curve_id\":"@ + curve_id_decimal(self.spec_eliptic_curve_id()) + ",\"proof\":"@
            + self.spec_proof().spec_json() + ",\"public_inputs\":["@ + join_comma(
            scalar_jsons(self.spec_public_inputs()),
        ) + "]}"@
    }

    /// Serializes the document: deterministic, field order fixed, the same
    /// logical input always yields identical text.
    #[verifier::rlimit(60)]
    pub fn serialize(&self) -> (r: String)
        ensures
            r@ == self.spec_json(),
    {
        let mut s = String::from_str("{\"eliptic_curve_id\":");
        append_curve_id(&mut s, &self.eliptic_curve_id);
        s.append(",\"proof\":");
        s.append("{\"a\":");
        append_g1_json(&mut s, &self.proof.a);
        s.append(",\"b\":");
        append_g2_json(&mut s, &self.proof.b);
        s.append(",\"c\":");
        append_g1_json(&mut s, &self.proof.c);
        s.append("}");
        s.append(",\"public_inputs\":[");
        let ghost prefix = s@;
        let inputs = &self.public_inputs;
        let mut i: usize = 0;
        while i < inputs.len()
            invariant
                0 <= i <= inputs@.len(),
                prefix == "{\"eliptic_curve_id\":"@ + curve_id_decimal(self.spec_eliptic_curve_id())
                    + ",\"proof\":"@ + self.spec_proof().spec_json() + ",\"public_inputs\":["@,
                inputs@ == self.spec_public_inputs(),
                s@ == prefix + join_comma(scalar_jsons(inputs@).take(i as int)),
            decreases inputs@.len() - i,
        {
            if i > 0 {
                s.append(",");
            }
            append_quoted_hex(&mut s, &inputs[i]);
            proof {
                let parts = scalar_jsons(inputs@);
                lemma_join_comma_step(parts, i as int);
                assert(s@ =~= prefix + join_comma(parts.take(i + 1)));
            }
            i = i + 1;
        }
        s.append("]}");
        proof {
            assert(scalar_jsons(inputs@).take(inputs@.len() as int) =~= scalar_jsons(inputs@));
            assert(s@ =~= self.spec_json());
        }
        s
    }
}

} // verus!
