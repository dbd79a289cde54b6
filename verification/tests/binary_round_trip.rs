use arkwors_garaga::field::FieldElement;
use arkwors_garaga::point::{G1Affine, G2Affine};
use arkwors_garaga::verifier_config::{Groth16VerifierConfiguration, VerifyingKey};
use arkwors_garaga::verifier_inputs::{Groth16VerifierInputs, Proof};
use arkwors_garaga::{DecodeError, ElipticCurveId};

fn fe(bytes: &[u8]) -> FieldElement {
    FieldElement::from_be_bytes(bytes.to_vec())
}

fn sample_g1() -> G1Affine {
    G1Affine::Affine { x: fe(&[0x12, 0x34]), y: fe(&[0x56]) }
}

fn sample_g2() -> G2Affine {
    G2Affine::Affine {
        x_c0: fe(&[0x01]),
        x_c1: fe(&[0x02, 0x03]),
        y_c0: fe(&[]),
        y_c1: fe(&[0xff; 32]),
    }
}

fn sample_config(curve: ElipticCurveId) -> Groth16VerifierConfiguration {
    Groth16VerifierConfiguration::new(
        curve,
        VerifyingKey {
            alpha_g1: sample_g1(),
            beta_g2: sample_g2(),
            gamma_g2: G2Affine::Infinity,
            delta_g2: sample_g2(),
            ic: vec![G1Affine::Infinity, sample_g1(), G1Affine::Infinity],
        },
    )
}

fn sample_inputs(curve: ElipticCurveId) -> Groth16VerifierInputs {
    Groth16VerifierInputs::new(
        curve,
        Proof { a: G1Affine::Infinity, b: sample_g2(), c: sample_g1() },
        vec![fe(&[1]), fe(&[2]), fe(&[0xab; 32])],
    )
}

#[test]
fn config_round_trip() {
    for curve in [ElipticCurveId::Bn254, ElipticCurveId::Bls12_381] {
        let config = sample_config(curve);
        let bytes = config.to_bytes();
        let back = Groth16VerifierConfiguration::from_bytes(&bytes).unwrap();
        assert_eq!(back, config);
    }
}

#[test]
fn inputs_round_trip() {
    for curve in [ElipticCurveId::Bn254, ElipticCurveId::Bls12_381] {
        let inputs = sample_inputs(curve);
        let bytes = inputs.to_bytes();
        let back = Groth16VerifierInputs::from_bytes(&bytes).unwrap();
        assert_eq!(back, inputs);
    }
}

#[test]
fn round_trip_recovers_infinity_exactly() {
    let config = Groth16VerifierConfiguration::new(
        ElipticCurveId::Bn254,
        VerifyingKey {
            alpha_g1: G1Affine::Infinity,
            beta_g2: G2Affine::Infinity,
            gamma_g2: G2Affine::Infinity,
            delta_g2: G2Affine::Infinity,
            ic: vec![],
        },
    );
    let back = Groth16VerifierConfiguration::from_bytes(&config.to_bytes()).unwrap();
    assert_eq!(back, config);
    // infinity came back as infinity, not as the zero pair
    assert_eq!(back.verifying_key().alpha_g1, G1Affine::Infinity);
    assert_ne!(back.verifying_key().alpha_g1, G1Affine::Affine { x: fe(&[]), y: fe(&[]) });
}

#[test]
fn decode_empty_input_fails() {
    assert_eq!(
        Groth16VerifierConfiguration::from_bytes(&vec![]),
        Err(DecodeError::MalformedEncoding)
    );
    assert_eq!(Groth16VerifierInputs::from_bytes(&vec![]), Err(DecodeError::MalformedEncoding));
}

#[test]
fn decode_unknown_curve_byte_fails() {
    let mut bytes = sample_config(ElipticCurveId::Bn254).to_bytes();
    bytes[0] = 7;
    assert_eq!(
        Groth16VerifierConfiguration::from_bytes(&bytes),
        Err(DecodeError::UnknownCurveId(7))
    );
}

#[test]
fn decode_truncated_input_fails() {
    let mut bytes = sample_config(ElipticCurveId::Bn254).to_bytes();
    bytes.pop();
    assert_eq!(
        Groth16VerifierConfiguration::from_bytes(&bytes),
        Err(DecodeError::MalformedEncoding)
    );
}

#[test]
fn decode_trailing_bytes_fail() {
    let mut bytes = sample_inputs(ElipticCurveId::Bn254).to_bytes();
    bytes.push(0);
    assert_eq!(Groth16VerifierInputs::from_bytes(&bytes), Err(DecodeError::MalformedEncoding));
}

#[test]
fn decode_bad_point_tag_fails() {
    let mut bytes = sample_config(ElipticCurveId::Bn254).to_bytes();
    // the byte after the curve id is the first point's tag
    bytes[1] = 2;
    assert_eq!(
        Groth16VerifierConfiguration::from_bytes(&bytes),
        Err(DecodeError::MalformedEncoding)
    );
}

#[test]
fn decode_nonzero_infinity_coordinates_fail() {
    let config = Groth16VerifierConfiguration::new(
        ElipticCurveId::Bn254,
        VerifyingKey {
            alpha_g1: G1Affine::Infinity,
            beta_g2: G2Affine::Infinity,
            gamma_g2: G2Affine::Infinity,
            delta_g2: G2Affine::Infinity,
            ic: vec![],
        },
    );
    let mut bytes = config.to_bytes();
    // a coordinate byte under the alpha_g1 infinity tag
    bytes[2] = 1;
    assert_eq!(
        Groth16VerifierConfiguration::from_bytes(&bytes),
        Err(DecodeError::MalformedEncoding)
    );
}
