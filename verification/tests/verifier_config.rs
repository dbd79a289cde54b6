use arkwors_garaga::point::{G1Affine, G2Affine};
use arkwors_garaga::verifier_config::{Groth16VerifierConfiguration, VerifyingKey};
use arkwors_garaga::ElipticCurveId;

fn all_infinity_key() -> VerifyingKey {
    VerifyingKey {
        alpha_g1: G1Affine::Infinity,
        beta_g2: G2Affine::Infinity,
        gamma_g2: G2Affine::Infinity,
        delta_g2: G2Affine::Infinity,
        ic: vec![],
    }
}

#[test]
fn new_and_getters() {
    let verifying_key = all_infinity_key();

    let config = Groth16VerifierConfiguration::new(ElipticCurveId::Bn254, verifying_key.clone());
    assert_eq!(config.eliptic_curve_id(), ElipticCurveId::Bn254);
    assert_eq!(config.verifying_key(), &verifying_key);
}

#[test]
fn serialization() {
    let verifying_key = all_infinity_key();

    let config = Groth16VerifierConfiguration::new(ElipticCurveId::Bn254, verifying_key);
    assert_eq!(
        &config.serialize(),
        r#"{"eliptic_curve_id":0,"verifying_key":{"alpha_g1":{"x":"0x0","y":"0x0"},"beta_g2":{"x":["0x0","0x0"],"y":["0x0","0x0"]},"gamma_g2":{"x":["0x0","0x0"],"y":["0x0","0x0"]},"delta_g2":{"x":["0x0","0x0"],"y":["0x0","0x0"]},"ic":[]}}"#
    );
}

#[test]
fn serialization_with_ic_entries() {
    let mut verifying_key = all_infinity_key();
    verifying_key.ic = vec![
        G1Affine::Infinity,
        G1Affine::Affine {
            x: arkwors_garaga::field::FieldElement::from_be_bytes(vec![0x01, 0x00]),
            y: arkwors_garaga::field::FieldElement::from_be_bytes(vec![0x2a]),
        },
    ];

    let config = Groth16VerifierConfiguration::new(ElipticCurveId::Bls12_381, verifying_key);
    assert_eq!(
        &config.serialize(),
        r#"{"eliptic_curve_id":1,"verifying_key":{"alpha_g1":{"x":"0x0","y":"0x0"},"beta_g2":{"x":["0x0","0x0"],"y":["0x0","0x0"]},"gamma_g2":{"x":["0x0","0x0"],"y":["0x0","0x0"]},"delta_g2":{"x":["0x0","0x0"],"y":["0x0","0x0"]},"ic":[{"x":"0x0","y":"0x0"},{"x":"0x100","y":"0x2a"}]}}"#
    );
}
