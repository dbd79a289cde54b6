use arkwors_garaga::field::FieldElement;
use arkwors_garaga::point::{G1Affine, G2Affine};
use arkwors_garaga::verifier_inputs::{Groth16VerifierInputs, Proof};
use arkwors_garaga::ElipticCurveId;

fn all_infinity_proof() -> Proof {
    Proof { a: G1Affine::Infinity, b: G2Affine::Infinity, c: G1Affine::Infinity }
}

#[test]
fn tests_new_and_getters() {
    let proof = all_infinity_proof();

    let a = FieldElement::from_be_bytes(vec![0x17, 0xfe, 0x03]);
    let b = FieldElement::from_be_bytes(vec![0xc4, 0x00, 0x81, 0x5d]);
    let public_inputs = vec![a, b];

    let inputs = Groth16VerifierInputs::new(
        ElipticCurveId::Bn254,
        proof.clone(),
        public_inputs.clone(),
    );
    assert_eq!(inputs.groth16_proof(), &proof);
    assert_eq!(inputs.public_inputs(), &public_inputs);
}

#[test]
fn tests_serialization() {
    let proof = all_infinity_proof();

    let a = FieldElement::from_be_bytes(vec![1]);
    let b = FieldElement::from_be_bytes(vec![2]);
    let public_inputs = vec![a, b];

    let inputs = Groth16VerifierInputs::new(
        ElipticCurveId::Bn254,
        proof.clone(),
        public_inputs.clone(),
    );
    assert_eq!(
        &inputs.serialize(),
        r#"{"eliptic_curve_id":0,"proof":{"a":{"x":"0x0","y":"0x0"},"b":{"x":["0x0","0x0"],"y":["0x0","0x0"]},"c":{"x":"0x0","y":"0x0"}},"public_inputs":["0x1","0x2"]}"#
    );
}

#[test]
fn serialization_empty_public_inputs() {
    let inputs = Groth16VerifierInputs::new(ElipticCurveId::Bn254, all_infinity_proof(), vec![]);
    assert_eq!(
        &inputs.serialize(),
        r#"{"eliptic_curve_id":0,"proof":{"a":{"x":"0x0","y":"0x0"},"b":{"x":["0x0","0x0"],"y":["0x0","0x0"]},"c":{"x":"0x0","y":"0x0"}},"public_inputs":[]}"#
    );
}
