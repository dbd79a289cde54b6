use arkwors_garaga::field::{encode_sequence, FieldElement};
use arkwors_garaga::point::{encode_g1, encode_g2, G1Affine, G2Affine};
use arkwors_garaga::{DecodeError, ElipticCurveId};
use num_bigint::BigUint;

#[test]
fn curve_id_round_trip() {
    assert_eq!(ElipticCurveId::Bn254.encode(), 0);
    assert_eq!(ElipticCurveId::Bls12_381.encode(), 1);
    assert_eq!(ElipticCurveId::decode(0), Ok(ElipticCurveId::Bn254));
    assert_eq!(ElipticCurveId::decode(1), Ok(ElipticCurveId::Bls12_381));
    assert_eq!(
        ElipticCurveId::decode(ElipticCurveId::Bn254.encode()),
        Ok(ElipticCurveId::Bn254)
    );
    assert_eq!(
        ElipticCurveId::decode(ElipticCurveId::Bls12_381.encode()),
        Ok(ElipticCurveId::Bls12_381)
    );
}

#[test]
fn curve_id_unknown_values_fail() {
    for id in 2..=255u8 {
        assert_eq!(ElipticCurveId::decode(id), Err(DecodeError::UnknownCurveId(id)));
    }
}

#[test]
fn curve_id_names() {
    assert_eq!(ElipticCurveId::Bn254.name(), "bn254");
    assert_eq!(ElipticCurveId::Bls12_381.name(), "bls12_381");
}

fn is_canonical_hex(s: &str) {
    assert!(s.starts_with("0x"));
    let digits = &s[2..];
    assert!(!digits.is_empty());
    assert!(digits.chars().all(|c| c.is_ascii_hexdigit() && !c.is_ascii_uppercase()));
    if digits.len() > 1 {
        assert!(!digits.starts_with('0'));
    }
}

#[test]
fn scalar_hex_is_canonical_and_value_preserving() {
    let cases: Vec<(Vec<u8>, &str)> = vec![
        (vec![], "0x0"),
        (vec![0, 0], "0x0"),
        (vec![1], "0x1"),
        (vec![15], "0xf"),
        (vec![16], "0x10"),
        (vec![0x1a, 0x2b], "0x1a2b"),
        (vec![0x01, 0x00], "0x100"),
        (vec![0x00, 0xff], "0xff"),
        (vec![0xde, 0xad, 0xbe, 0xef], "0xdeadbeef"),
    ];
    for (bytes, expected) in cases {
        let fe = FieldElement::from_be_bytes(bytes.clone());
        let hex = fe.encode();
        is_canonical_hex(&hex);
        assert_eq!(hex, expected);
        // value preserved, checked with an independent parser
        let reparsed = BigUint::parse_bytes(hex[2..].as_bytes(), 16).unwrap();
        assert_eq!(reparsed, BigUint::from_bytes_be(&bytes));
    }
}

#[test]
fn scalar_sequence_keeps_order_and_duplicates() {
    let scalars = vec![
        FieldElement::from_be_bytes(vec![2]),
        FieldElement::from_be_bytes(vec![1]),
        FieldElement::from_be_bytes(vec![2]),
    ];
    let encoded = encode_sequence(&scalars);
    assert_eq!(encoded, vec!["0x2".to_string(), "0x1".to_string(), "0x2".to_string()]);
}

#[test]
fn g1_hex_round_trips_through_independent_parser() {
    // a full-width base-field-sized coordinate pair
    let x_bytes: Vec<u8> = (1..=48u8).collect();
    let y_bytes: Vec<u8> = (100..=131u8).collect();
    let p = G1Affine::Affine {
        x: FieldElement::from_be_bytes(x_bytes.clone()),
        y: FieldElement::from_be_bytes(y_bytes.clone()),
    };
    let hex = encode_g1(&p);
    is_canonical_hex(&hex.x);
    is_canonical_hex(&hex.y);
    let x_back = BigUint::parse_bytes(hex.x[2..].as_bytes(), 16).unwrap();
    let y_back = BigUint::parse_bytes(hex.y[2..].as_bytes(), 16).unwrap();
    assert_eq!(x_back, BigUint::from_bytes_be(&x_bytes));
    assert_eq!(y_back, BigUint::from_bytes_be(&y_bytes));
}

#[test]
fn g1_infinity_encodes_as_zero() {
    let hex = encode_g1(&G1Affine::Infinity);
    assert_eq!(hex.x, "0x0");
    assert_eq!(hex.y, "0x0");
}

fn sample_g2() -> G2Affine {
    G2Affine::Affine {
        x_c0: FieldElement::from_be_bytes(vec![0x11, 0x22]),
        x_c1: FieldElement::from_be_bytes(vec![0x33]),
        y_c0: FieldElement::from_be_bytes(vec![0x44]),
        y_c1: FieldElement::from_be_bytes(vec![0x55, 0x66]),
    }
}

#[test]
fn g2_component_order_is_fixed() {
    let p = sample_g2();
    let swapped = G2Affine::Affine {
        x_c0: FieldElement::from_be_bytes(vec![0x33]),
        x_c1: FieldElement::from_be_bytes(vec![0x11, 0x22]),
        y_c0: FieldElement::from_be_bytes(vec![0x55, 0x66]),
        y_c1: FieldElement::from_be_bytes(vec![0x44]),
    };
    let enc = encode_g2(&p);
    let enc_swapped = encode_g2(&swapped);
    assert_eq!(enc.x_c0, "0x1122");
    assert_eq!(enc.x_c1, "0x33");
    assert_eq!(enc_swapped.x_c0, "0x33");
    assert_ne!(enc, enc_swapped);

    // the full serialized document changes too
    let doc = |point: G2Affine| {
        arkwors_garaga::verifier_inputs::Groth16VerifierInputs::new(
            ElipticCurveId::Bn254,
            arkwors_garaga::verifier_inputs::Proof {
                a: G1Affine::Infinity,
                b: point,
                c: G1Affine::Infinity,
            },
            vec![],
        )
        .serialize()
    };
    assert_ne!(doc(p), doc(swapped));
}

#[test]
fn g2_infinity_encodes_as_zeros() {
    let hex = encode_g2(&G2Affine::Infinity);
    assert_eq!(hex.x_c0, "0x0");
    assert_eq!(hex.x_c1, "0x0");
    assert_eq!(hex.y_c0, "0x0");
    assert_eq!(hex.y_c1, "0x0");
}
