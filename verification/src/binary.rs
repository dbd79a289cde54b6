//! The compressed binary round trip.
//!
//! An alternate, internal encoding used for persistence and testing: one
//! fixed-width chunk per field element (the width set by the curve), a
//! leading tag byte per point carrying the infinity flag, an 8-byte
//! little-endian element count before each list, and nothing else.  Unlike
//! the hex JSON form this path is lossless: the point at infinity survives,
//! and decoding rejects every byte string that no document encodes to.

use vstd::prelude::*;

use crate::curve_id::ElipticCurveId;
use crate::error::DecodeError;
use crate::field::{fe_views, FieldElement};
use crate::hex::{lemma_trim_at, trim_leading_zeros};
use crate::point::{g1_views, G1Affine, G1View, G2Affine, G2View};
use crate::verifier_config::{
    ConfigurationView, Groth16VerifierConfiguration, VerifyingKey, VerifyingKeyView,
};
use crate::verifier_inputs::{Groth16VerifierInputs, Proof, ProofView, VerifierInputsView};
use vstd::arithmetic::div_mod::{lemma_fundamental_div_mod, lemma_multiply_divide_lt};

verus! {

/// The fixed byte width of a base-field element on each curve.
pub open spec fn base_field_width(c: ElipticCurveId) -> nat {
    match c {
        ElipticCurveId::Bn254 => 32,
        ElipticCurveId::Bls12_381 => 48,
    }
}

/// The fixed byte width of a scalar-field element; 32 on both curves.
pub const SCALAR_WIDTH: usize = 32;

/// 256 to the `k`-th power: the number of values of a `k`-byte chunk.
pub open spec fn pow256(k: nat) -> nat
    decreases k,
{
    if k == 0 {
        1
    } else {
        256 * pow256((k - 1) as nat)
    }
}

/// A canonical byte string that fits a `w`-byte chunk.
pub open spec fn fe_fits(s: Seq<u8>, w: nat) -> bool {
    (s.len() == 0 || s[0] != 0) && s.len() <= w
}

/// Whether a G1 point's coordinates fit `w`-byte chunks.
pub open spec fn g1_fits(p: G1View, w: nat) -> bool {
    match p {
        G1View::Infinity => true,
        G1View::Affine { x, y } => fe_fits(x, w) && fe_fits(y, w),
    }
}

/// Whether a G2 point's components fit `w`-byte chunks.
pub open spec fn g2_fits(p: G2View, w: nat) -> bool {
    match p {
        G2View::Infinity => true,
        G2View::Affine { x_c0, x_c1, y_c0, y_c1 } => fe_fits(x_c0, w) && fe_fits(x_c1, w)
            && fe_fits(y_c0, w) && fe_fits(y_c1, w),
    }
}

/// Whether a verifying key fits `w`-byte chunks and an 8-byte count.
pub open spec fn vk_fits(k: VerifyingKeyView, w: nat) -> bool {
    g1_fits(k.alpha_g1, w) && g2_fits(k.beta_g2, w) && g2_fits(k.gamma_g2, w) && g2_fits(
        k.delta_g2,
        w,
    ) && (forall|i: int| 0 <= i < k.ic.len() ==> g1_fits(#[trigger] k.ic[i], w)) && k.ic.len()
        < pow256(8)
}

/// Whether a configuration document is encodable: its key fits the chunk
/// width of its own curve.
pub open spec fn config_fits(v: ConfigurationView) -> bool {
    vk_fits(v.verifying_key, base_field_width(v.eliptic_curve_id))
}

/// Whether a proof fits `w`-byte chunks.
pub open spec fn proof_fits(p: ProofView, w: nat) -> bool {
    g1_fits(p.a, w) && g2_fits(p.b, w) && g1_fits(p.c, w)
}

/// Whether an inputs document is encodable: its proof fits the chunk width
/// of its own curve and every scalar fits the scalar width.
pub open spec fn inputs_fits(v: VerifierInputsView) -> bool {
    proof_fits(v.proof, base_field_width(v.eliptic_curve_id)) && (forall|i: int|
        0 <= i < v.public_inputs.len() ==> fe_fits(
            #[trigger] v.public_inputs[i],
            SCALAR_WIDTH as nat,
        )) && v.public_inputs.len() < pow256(8)
}

/// `n` zero bytes.
pub open spec fn zeros(n: nat) -> Seq<u8> {
    Seq::new(n, |i: int| 0u8)
}

/// A canonical byte string left-padded with zeros to a `w`-byte chunk.
pub open spec fn fe_chunk(s: Seq<u8>, w: nat) -> Seq<u8> {
    zeros((w - s.len()) as nat) + s
}

/// The chunk of a G1 point: a tag byte (1 for infinity, 0 otherwise)
/// followed by the two fixed-width coordinates, all zero at infinity.
pub open spec fn g1_chunk(p: G1View, w: nat) -> Seq<u8> {
    match p {
        G1View::Infinity => seq![1u8] + zeros(2 * w),
        G1View::Affine { x, y } => seq![0u8] + fe_chunk(x, w) + fe_chunk(y, w),
    }
}

/// The chunk of a G2 point: a tag byte then the four fixed-width
/// components, component 0 of each coordinate first.
pub open spec fn g2_chunk(p: G2View, w: nat) -> Seq<u8> {
    match p {
        G2View::Infinity => seq![1u8] + zeros(4 * w),
        G2View::Affine { x_c0, x_c1, y_c0, y_c1 } => seq![0u8] + fe_chunk(x_c0, w) + fe_chunk(
            x_c1,
            w,
        ) + fe_chunk(y_c0, w) + fe_chunk(y_c1, w),
    }
}

/// A count as `k` little-endian bytes.
pub open spec fn le_len_bytes(n: nat, k: nat) -> Seq<u8>
    decreases k,
{
    if k == 0 {
        Seq::empty()
    } else {
        seq![(n % 256) as u8] + le_len_bytes(n / 256, (k - 1) as nat)
    }
}

/// The count a little-endian byte string denotes.
pub open spec fn le_bytes_value(s: Seq<u8>) -> nat
    decreases s.len(),
{
    if s.len() == 0 {
        0
    } else {
        s[0] as nat + 256 * le_bytes_value(s.skip(1))
    }
}

/// The chunks of a list of G1 points, in order.
pub open spec fn g1_list_bytes(ps: Seq<G1View>, w: nat) -> Seq<u8>
    decreases ps.len(),
{
    if ps.len() == 0 {
        Seq::empty()
    } else {
        g1_list_bytes(ps.drop_last(), w) + g1_chunk(ps.last(), w)
    }
}

/// The chunks of a list of scalars, in order.
pub open spec fn fe_list_bytes(ss: Seq<Seq<u8>>, w: nat) -> Seq<u8>
    decreases ss.len(),
{
    if ss.len() == 0 {
        Seq::empty()
    } else {
        fe_list_bytes(ss.drop_last(), w) + fe_chunk(ss.last(), w)
    }
}

/// The chunks of a verifying key: the four points then the counted `ic`
/// list.
pub open spec fn vk_bytes(k: VerifyingKeyView, w: nat) -> Seq<u8> {
    g1_chunk(k.alpha_g1, w) + g2_chunk(k.beta_g2, w) + g2_chunk(k.gamma_g2, w) + g2_chunk(
        k.delta_g2,
        w,
    ) + le_len_bytes(k.ic.len(), 8) + g1_list_bytes(k.ic, w)
}

/// The complete binary encoding of a configuration document: the curve id
/// byte then the verifying key chunks.
pub open spec fn config_bytes(v: ConfigurationView) -> Seq<u8> {
    seq![v.eliptic_curve_id.spec_encode()] + vk_bytes(
        v.verifying_key,
        base_field_width(v.eliptic_curve_id),
    )
}

/// The chunks of a proof: its three points in order.
pub open spec fn proof_bytes(p: ProofView, w: nat) -> Seq<u8> {
    g1_chunk(p.a, w) + g2_chunk(p.b, w) + g1_chunk(p.c, w)
}

/// The complete binary encoding of an inputs document: the curve id byte,
/// the proof chunks, then the counted scalar list.
pub open spec fn inputs_bytes(v: VerifierInputsView) -> Seq<u8> {
    seq![v.eliptic_curve_id.spec_encode()] + proof_bytes(
        v.proof,
        base_field_width(v.eliptic_curve_id),
    ) + le_len_bytes(v.public_inputs.len(), 8) + fe_list_bytes(v.public_inputs, SCALAR_WIDTH as nat)
}

/// Whether every byte of a string is zero.
pub open spec fn all_zero(s: Seq<u8>) -> bool {
    forall|i: int| 0 <= i < s.len() ==> s[i] == 0
}

/// Reads one fixed-width field element chunk: the canonical bytes and the
/// remaining input, or nothing if the input is too short.
pub open spec fn parse_fe(b: Seq<u8>, w: nat) -> Option<(Seq<u8>, Seq<u8>)> {
    if b.len() >= w {
        Some((trim_leading_zeros(b.take(w as int)), b.skip(w as int)))
    } else {
        None
    }
}

/// Reads one G1 point chunk: tag byte 0 then two coordinates, or tag byte
/// 1 with all-zero coordinates for infinity; anything else is rejected.
pub open spec fn parse_g1(b: Seq<u8>, w: nat) -> Option<(G1View, Seq<u8>)> {
    if b.len() < 1 {
        None
    } else {
        let rest = b.skip(1);
        if b[0] == 0 {
            match parse_fe(rest, w) {
                Some((x, r1)) => match parse_fe(r1, w) {
                    Some((y, r2)) => Some((G1View::Affine { x, y }, r2)),
                    None => None,
                },
                None => None,
            }
        } else if b[0] == 1 {
            if rest.len() >= 2 * w && all_zero(rest.take(2 * w as int)) {
                Some((G1View::Infinity, rest.skip(2 * w as int)))
            } else {
                None
            }
        } else {
            None
        }
    }
}

/// Reads one G2 point chunk: tag byte 0 then four components, or tag byte
/// 1 with all-zero components for infinity; anything else is rejected.
pub open spec fn parse_g2(b: Seq<u8>, w: nat) -> Option<(G2View, Seq<u8>)> {
    if b.len() < 1 {
        None
    } else {
        let rest = b.skip(1);
        if b[0] == 0 {
            match parse_fe(rest, w) {
                Some((x_c0, r1)) => match parse_fe(r1, w) {
                    Some((x_c1, r2)) => match parse_fe(r2, w) {
                        Some((y_c0, r3)) => match parse_fe(r3, w) {
                            Some((y_c1, r4)) => Some(
                                (G2View::Affine { x_c0, x_c1, y_c0, y_c1 }, r4),
                            ),
                            None => None,
                        },
                        None => None,
                    },
                    None => None,
                },
                None => None,
            }
        } else if b[0] == 1 {
            if rest.len() >= 4 * w && all_zero(rest.take(4 * w as int)) {
                Some((G2View::Infinity, rest.skip(4 * w as int)))
            } else {
                None
            }
        } else {
            None
        }
    }
}

/// Reads the 8-byte little-endian element count.
pub open spec fn parse_len(b: Seq<u8>) -> Option<(nat, Seq<u8>)> {
    if b.len() >= 8 {
        Some((le_bytes_value(b.take(8)), b.skip(8)))
    } else {
        None
    }
}

/// Reads `n` G1 point chunks in order.
pub open spec fn parse_g1_list(b: Seq<u8>, n: nat, w: nat) -> Option<(Seq<G1View>, Seq<u8>)>
    decreases n,
{
    if n == 0 {
        Some((Seq::empty(), b))
    } else {
        match parse_g1(b, w) {
            Some((p, r)) => match parse_g1_list(r, (n - 1) as nat, w) {
                Some((ps, r2)) => Some((seq![p] + ps, r2)),
                None => None,
            },
            None => None,
        }
    }
}

/// Reads `n` scalar chunks in order.
pub open spec fn parse_fe_list(b: Seq<u8>, n: nat, w: nat) -> Option<(Seq<Seq<u8>>, Seq<u8>)>
    decreases n,
{
    if n == 0 {
        Some((Seq::empty(), b))
    } else {
        match parse_fe(b, w) {
            Some((s, r)) => match parse_fe_list(r, (n - 1) as nat, w) {
                Some((ss, r2)) => Some((seq![s] + ss, r2)),
                None => None,
            },
            None => None,
        }
    }
}

/// Reads a verifying key: four point chunks then the counted `ic` list.
pub open spec fn parse_vk(b: Seq<u8>, w: nat) -> Option<(VerifyingKeyView, Seq<u8>)> {
    match parse_g1(b, w) {
        Some((alpha, r1)) => match parse_g2(r1, w) {
            Some((beta, r2)) => match parse_g2(r2, w) {
                Some((gamma, r3)) => match parse_g2(r3, w) {
                    Some((delta, r4)) => match parse_len(r4) {
                        Some((n, r5)) => match parse_g1_list(r5, n, w) {
                            Some((ic, r6)) => Some(
                                (
                                    VerifyingKeyView {
                                        alpha_g1: alpha,
                                        beta_g2: beta,
                                        gamma_g2: gamma,
                                        delta_g2: delta,
                                        ic,
                                    },
                                    r6,
                                ),
                            ),
                            None => None,
                        },
                        None => None,
                    },
                    None => None,
                },
                None => None,
            },
            None => None,
        },
        None => None,
    }
}

/// Reads a proof: its three point chunks.
pub open spec fn parse_proof(b: Seq<u8>, w: nat) -> Option<(ProofView, Seq<u8>)> {
    match parse_g1(b, w) {
        Some((a, r1)) => match parse_g2(r1, w) {
            Some((bb, r2)) => match parse_g1(r2, w) {
                Some((c, r3)) => Some((ProofView { a, b: bb, c }, r3)),
                None => None,
            },
            None => None,
        },
        None => None,
    }
}

/// The document a binary string encodes, if any.  Rejected: an unknown
/// curve byte, a truncated or overlong input, a bad tag byte, and non-zero
/// coordinate bytes under an infinity tag.
pub open spec fn parse_config(b: Seq<u8>) -> Option<ConfigurationView> {
    if b.len() < 1 {
        None
    } else if b[0] == 0 || b[0] == 1 {
        let c = if b[0] == 0 {
            ElipticCurveId::Bn254
        } else {
            ElipticCurveId::Bls12_381
        };
        match parse_vk(b.skip(1), base_field_width(c)) {
            Some((k, r)) => if r.len() == 0 {
                Some(ConfigurationView { eliptic_curve_id: c, verifying_key: k })
            } else {
                None
            },
            None => None,
        }
    } else {
        None
    }
}

/// The inputs document a binary string encodes, if any.
pub open spec fn parse_inputs(b: Seq<u8>) -> Option<VerifierInputsView> {
    if b.len() < 1 {
        None
    } else if b[0] == 0 || b[0] == 1 {
        let c = if b[0] == 0 {
            ElipticCurveId::Bn254
        } else {
            ElipticCurveId::Bls12_381
        };
        match parse_proof(b.skip(1), base_field_width(c)) {
            Some((p, r1)) => match parse_len(r1) {
                Some((n, r2)) => match parse_fe_list(r2, n, SCALAR_WIDTH as nat) {
                    Some((ss, r3)) => if r3.len() == 0 {
                        Some(
                            VerifierInputsView {
                                eliptic_curve_id: c,
                                proof: p,
                                public_inputs: ss,
                            },
                        )
                    } else {
                        None
                    },
                    None => None,
                },
                None => None,
            },
            None => None,
        }
    } else {
        None
    }
}

/// The error a failed document decode reports: `UnknownCurveId` for a
/// present but unrecognized curve byte, `MalformedEncoding` otherwise.
pub open spec fn doc_decode_error(b: Seq<u8>) -> DecodeError {
    if b.len() >= 1 && b[0] >= 2 {
        DecodeError::UnknownCurveId(b[0])
    } else {
        DecodeError::MalformedEncoding
    }
}

/// Reading a padded chunk recovers the canonical bytes and the rest.
proof fn lemma_parse_fe_chunk(s: Seq<u8>, w: nat, rest: Seq<u8>)
    requires
        fe_fits(s, w),
    ensures
        fe_chunk(s, w).len() == w,
        parse_fe(fe_chunk(s, w) + rest, w) == Some((s, rest)),
{
    let c = fe_chunk(s, w);
    let k = (w - s.len()) as int;
    assert(c.len() == w);
    assert((c + rest).take(w as int) =~= c);
    assert((c + rest).skip(w as int) =~= rest);
    assert(forall|i: int| 0 <= i < k ==> c[i] == 0);
    if s.len() == 0 {
        lemma_trim_at(c, k);
    } else {
        assert(c[k] == s[0]);
        lemma_trim_at(c, k);
    }
    assert(c.skip(k) =~= s);
}

/// Reading a G1 chunk recovers the point and the rest.
proof fn lemma_parse_g1_chunk(p: G1View, w: nat, rest: Seq<u8>)
    requires
        g1_fits(p, w),
    ensures
        g1_chunk(p, w).len() == 1 + 2 * w,
        parse_g1(g1_chunk(p, w) + rest, w) == Some((p, rest)),
{
    let c = g1_chunk(p, w);
    let b = c + rest;
    match p {
        G1View::Infinity => {
            assert(c == seq![1u8] + zeros(2 * w));
            assert(c.len() == 1 + 2 * w);
            assert(b[0] == 1);
            let r = b.skip(1);
            assert(r =~= zeros(2 * w) + rest);
            assert(r.take(2 * w as int) =~= zeros(2 * w));
            assert(all_zero(zeros(2 * w)));
            assert(r.skip(2 * w as int) =~= rest);
        },
        G1View::Affine { x, y } => {
            let fx = fe_chunk(x, w);
            let fy = fe_chunk(y, w);
            lemma_parse_fe_chunk(x, w, fy + rest);
            lemma_parse_fe_chunk(y, w, rest);
            assert(c == seq![0u8] + fx + fy);
            assert(c.len() == 1 + 2 * w);
            assert(b[0] == 0);
            assert(b.skip(1) =~= fx + (fy + rest));
        },
    }
}

/// Reading a G2 chunk recovers the point and the rest.
#[verifier::rlimit(100)]
proof fn lemma_parse_g2_chunk(p: G2View, w: nat, rest: Seq<u8>)
    requires
        g2_fits(p, w),
    ensures
        g2_chunk(p, w).len() == 1 + 4 * w,
        parse_g2(g2_chunk(p, w) + rest, w) == Some((p, rest)),
{
    let c = g2_chunk(p, w);
    let b = c + rest;
    match p {
        G2View::Infinity => {
            assert(c == seq![1u8] + zeros(4 * w));
            assert(c.len() == 1 + 4 * w);
            assert(b[0] == 1);
            let r = b.skip(1);
            assert(r =~= zeros(4 * w) + rest);
            assert(r.take(4 * w as int) =~= zeros(4 * w));
            assert(all_zero(zeros(4 * w)));
            assert(r.skip(4 * w as int) =~= rest);
        },
        G2View::Affine { x_c0, x_c1, y_c0, y_c1 } => {
            let f0 = fe_chunk(x_c0, w);
            let f1 = fe_chunk(x_c1, w);
            let f2 = fe_chunk(y_c0, w);
            let f3 = fe_chunk(y_c1, w);
            lemma_parse_fe_chunk(x_c0, w, f1 + (f2 + (f3 + rest)));
            lemma_parse_fe_chunk(x_c1, w, f2 + (f3 + rest));
            lemma_parse_fe_chunk(y_c0, w, f3 + rest);
            lemma_parse_fe_chunk(y_c1, w, rest);
            assert(c == seq![0u8] + f0 + f1 + f2 + f3);
            assert(c.len() == 1 + 4 * w);
            assert(b[0] == 0);
            assert(b.skip(1) =~= f0 + (f1 + (f2 + (f3 + rest))));
            assert(parse_fe(f0 + (f1 + (f2 + (f3 + rest))), w) == Some(
                (x_c0, f1 + (f2 + (f3 + rest))),
            ));
        },
    }
}

/// A count below `256^k` is recovered from its `k` little-endian bytes.
proof fn lemma_le_len_value(n: nat, k: nat)
    requires
        n < pow256(k),
    ensures
        le_len_bytes(n, k).len() == k,
        le_bytes_value(le_len_bytes(n, k)) == n,
    decreases k,
{
    if k == 0 {
        assert(le_bytes_value(Seq::<u8>::empty()) == 0);
    } else {
        lemma_fundamental_div_mod(n as int, 256);
        assert(0 <= n % 256 < 256) by (nonlinear_arith);
        assert(pow256(k) == 256 * pow256((k - 1) as nat));
        lemma_multiply_divide_lt(n as int, 256, pow256((k - 1) as nat) as int);
        lemma_le_len_value(n / 256, (k - 1) as nat);
        let s = le_len_bytes(n, k);
        assert(s == seq![(n % 256) as u8] + le_len_bytes(n / 256, (k - 1) as nat));
        assert(s.skip(1) =~= le_len_bytes(n / 256, (k - 1) as nat));
        assert(s[0] == (n % 256) as u8);
        assert(((n % 256) as u8) as nat == n % 256);
    }
}

/// Reading a count chunk recovers the count and the rest.
proof fn lemma_parse_len_chunk(n: nat, rest: Seq<u8>)
    requires
        n < pow256(8),
    ensures
        le_len_bytes(n, 8).len() == 8,
        parse_len(le_len_bytes(n, 8) + rest) == Some((n, rest)),
{
    lemma_le_len_value(n, 8);
    let l = le_len_bytes(n, 8);
    assert((l + rest).take(8) =~= l);
    assert((l + rest).skip(8) =~= rest);
}

/// List chunks unfold from the front.
proof fn lemma_g1_list_cons(ps: Seq<G1View>, w: nat)
    requires
        ps.len() > 0,
    ensures
        g1_list_bytes(ps, w) == g1_chunk(ps[0], w) + g1_list_bytes(ps.skip(1), w),
    decreases ps.len(),
{
    if ps.len() == 1 {
        assert(ps.drop_last() =~= Seq::<G1View>::empty());
        assert(ps.skip(1) =~= Seq::<G1View>::empty());
        assert(ps.last() == ps[0]);
        assert(g1_list_bytes(ps, w) =~= g1_chunk(ps[0], w) + g1_list_bytes(ps.skip(1), w));
    } else {
        lemma_g1_list_cons(ps.drop_last(), w);
        assert(ps.drop_last()[0] == ps[0]);
        assert(ps.drop_last().skip(1) =~= ps.skip(1).drop_last());
        assert(ps.skip(1).last() == ps.last());
        assert(g1_list_bytes(ps, w) == g1_list_bytes(ps.drop_last(), w) + g1_chunk(ps.last(), w));
        assert(g1_list_bytes(ps.skip(1), w) == g1_list_bytes(ps.skip(1).drop_last(), w) + g1_chunk(
            ps.skip(1).last(),
            w,
        ));
        assert(g1_list_bytes(ps, w) =~= g1_chunk(ps[0], w) + g1_list_bytes(ps.skip(1), w));
    }
}

/// List chunks unfold from the front.
proof fn lemma_fe_list_cons(ss: Seq<Seq<u8>>, w: nat)
    requires
        ss.len() > 0,
    ensures
        fe_list_bytes(ss, w) == fe_chunk(ss[0], w) + fe_list_bytes(ss.skip(1), w),
    decreases ss.len(),
{
    if ss.len() == 1 {
        assert(ss.drop_last() =~= Seq::<Seq<u8>>::empty());
        assert(ss.skip(1) =~= Seq::<Seq<u8>>::empty());
        assert(ss.last() == ss[0]);
        assert(fe_list_bytes(ss, w) =~= fe_chunk(ss[0], w) + fe_list_bytes(ss.skip(1), w));
    } else {
        lemma_fe_list_cons(ss.drop_last(), w);
        assert(ss.drop_last()[0] == ss[0]);
        assert(ss.drop_last().skip(1) =~= ss.skip(1).drop_last());
        assert(ss.skip(1).last() == ss.last());
        assert(fe_list_bytes(ss, w) =~= fe_chunk(ss[0], w) + fe_list_bytes(ss.skip(1), w));
    }
}

/// Reading `n` G1 chunks recovers the list and the rest.
proof fn lemma_parse_g1_list_chunk(ps: Seq<G1View>, w: nat, rest: Seq<u8>)
    requires
        forall|i: int| 0 <= i < ps.len() ==> g1_fits(#[trigger] ps[i], w),
    ensures
        parse_g1_list(g1_list_bytes(ps, w) + rest, ps.len(), w) == Some((ps, rest)),
    decreases ps.len(),
{
    if ps.len() == 0 {
        assert(g1_list_bytes(ps, w) + rest =~= rest);
        assert(ps =~= Seq::<G1View>::empty());
    } else {
        lemma_g1_list_cons(ps, w);
        let tail_bytes = g1_list_bytes(ps.skip(1), w);
        lemma_parse_g1_chunk(ps[0], w, tail_bytes + rest);
        assert(g1_list_bytes(ps, w) + rest =~= g1_chunk(ps[0], w) + (tail_bytes + rest));
        assert(forall|i: int| 0 <= i < ps.skip(1).len() ==> g1_fits(#[trigger] ps.skip(1)[i], w));
        lemma_parse_g1_list_chunk(ps.skip(1), w, rest);
        assert(seq![ps[0]] + ps.skip(1) =~= ps);
    }
}

/// Reading `n` scalar chunks recovers the list and the rest.
proof fn lemma_parse_fe_list_chunk(ss: Seq<Seq<u8>>, w: nat, rest: Seq<u8>)
    requires
        forall|i: int| 0 <= i < ss.len() ==> fe_fits(#[trigger] ss[i], w),
    ensures
        parse_fe_list(fe_list_bytes(ss, w) + rest, ss.len(), w) == Some((ss, rest)),
    decreases ss.len(),
{
    if ss.len() == 0 {
        assert(fe_list_bytes(ss, w) + rest =~= rest);
        assert(ss =~= Seq::<Seq<u8>>::empty());
    } else {
        lemma_fe_list_cons(ss, w);
        let tail_bytes = fe_list_bytes(ss.skip(1), w);
        lemma_parse_fe_chunk(ss[0], w, tail_bytes + rest);
        assert(fe_list_bytes(ss, w) + rest =~= fe_chunk(ss[0], w) + (tail_bytes + rest));
        assert(forall|i: int| 0 <= i < ss.skip(1).len() ==> fe_fits(#[trigger] ss.skip(1)[i], w));
        lemma_parse_fe_list_chunk(ss.skip(1), w, rest);
        assert(seq![ss[0]] + ss.skip(1) =~= ss);
    }
}

/// Concatenation reassociates.
proof fn lemma_assoc(a: Seq<u8>, b: Seq<u8>, c: Seq<u8>)
    ensures
        (a + b) + c =~= a + (b + c),
{
}

/// The verifying-key chunks followed by `rest`, fully right-associated.
proof fn lemma_vk_bytes_assoc(k: VerifyingKeyView, w: nat, rest: Seq<u8>)
    ensures
        vk_bytes(k, w) + rest == g1_chunk(k.alpha_g1, w) + (g2_chunk(k.beta_g2, w) + (g2_chunk(
            k.gamma_g2,
            w,
        ) + (g2_chunk(k.delta_g2, w) + (le_len_bytes(k.ic.len(), 8) + (g1_list_bytes(k.ic, w)
            + rest))))),
{
    let ca = g1_chunk(k.alpha_g1, w);
    let cb = g2_chunk(k.beta_g2, w);
    let cg = g2_chunk(k.gamma_g2, w);
    let cd = g2_chunk(k.delta_g2, w);
    let cl = le_len_bytes(k.ic.len(), 8);
    let ci = g1_list_bytes(k.ic, w);
    lemma_assoc(ca + cb + cg + cd + cl, ci, rest);
    lemma_assoc(ca + cb + cg + cd, cl, ci + rest);
    lemma_assoc(ca + cb + cg, cd, cl + (ci + rest));
    lemma_assoc(ca + cb, cg, cd + (cl + (ci + rest)));
    lemma_assoc(ca, cb, cg + (cd + (cl + (ci + rest))));
}

/// Reading the verifying-key chunks recovers the key and the rest.
#[verifier::rlimit(100)]
proof fn lemma_parse_vk_chunk(k: VerifyingKeyView, w: nat, rest: Seq<u8>)
    requires
        vk_fits(k, w),
    ensures
        parse_vk(vk_bytes(k, w) + rest, w) == Some((k, rest)),
{
    let ca = g1_chunk(k.alpha_g1, w);
    let cb = g2_chunk(k.beta_g2, w);
    let cg = g2_chunk(k.gamma_g2, w);
    let cd = g2_chunk(k.delta_g2, w);
    let cl = le_len_bytes(k.ic.len(), 8);
    let ci = g1_list_bytes(k.ic, w);
    lemma_vk_bytes_assoc(k, w, rest);
    lemma_parse_g1_chunk(k.alpha_g1, w, cb + (cg + (cd + (cl + (ci + rest)))));
    lemma_parse_g2_chunk(k.beta_g2, w, cg + (cd + (cl + (ci + rest))));
    lemma_parse_g2_chunk(k.gamma_g2, w, cd + (cl + (ci + rest)));
    lemma_parse_g2_chunk(k.delta_g2, w, cl + (ci + rest));
    lemma_parse_len_chunk(k.ic.len(), ci + rest);
    lemma_parse_g1_list_chunk(k.ic, w, rest);
    assert(parse_len(cl + (ci + rest)) == Some((k.ic.len(), ci + rest)));
    assert(parse_g1_list(ci + rest, k.ic.len(), w) == Some((k.ic, rest)));
}

/// Reading the proof chunks recovers the proof and the rest.
#[verifier::rlimit(100)]
proof fn lemma_parse_proof_chunk(p: ProofView, w: nat, rest: Seq<u8>)
    requires
        proof_fits(p, w),
    ensures
        parse_proof(proof_bytes(p, w) + rest, w) == Some((p, rest)),
{
    let ca = g1_chunk(p.a, w);
    let cb = g2_chunk(p.b, w);
    let cc = g1_chunk(p.c, w);
    lemma_assoc(ca + cb, cc, rest);
    lemma_assoc(ca, cb, cc + rest);
    lemma_parse_g1_chunk(p.a, w, cb + (cc + rest));
    lemma_parse_g2_chunk(p.b, w, cc + rest);
    lemma_parse_g1_chunk(p.c, w, rest);
    assert(proof_bytes(p, w) + rest == ca + (cb + (cc + rest)));
    assert(parse_g1(ca + (cb + (cc + rest)), w) == Some((p.a, cb + (cc + rest))));
}

/// Law: the binary round trip of a configuration document is lossless —
/// decoding the encoding of any encodable document yields it back exactly,
/// point at infinity included.
pub proof fn lemma_config_round_trip(v: ConfigurationView)
    requires
        config_fits(v),
    ensures
        parse_config(config_bytes(v)) == Some(v),
{
    let w = base_field_width(v.eliptic_curve_id);
    let b = config_bytes(v);
    lemma_parse_vk_chunk(v.verifying_key, w, Seq::empty());
    assert(vk_bytes(v.verifying_key, w) + Seq::<u8>::empty() =~= vk_bytes(v.verifying_key, w));
    assert(b.skip(1) =~= vk_bytes(v.verifying_key, w));
    assert(b[0] == v.eliptic_curve_id.spec_encode());
    match v.eliptic_curve_id {
        ElipticCurveId::Bn254 => {
            assert(b[0] == 0);
        },
        ElipticCurveId::Bls12_381 => {
            assert(b[0] == 1);
        },
    }
    assert(parse_config(b) == Some(v));
}

/// Law: the binary round trip of an inputs document is lossless.
#[verifier::rlimit(100)]
pub proof fn lemma_inputs_round_trip(v: VerifierInputsView)
    requires
        inputs_fits(v),
    ensures
        parse_inputs(inputs_bytes(v)) == Some(v),
{
    let w = base_field_width(v.eliptic_curve_id);
    let cp = proof_bytes(v.proof, w);
    let cl = le_len_bytes(v.public_inputs.len(), 8);
    let cs = fe_list_bytes(v.public_inputs, SCALAR_WIDTH as nat);
    let b = inputs_bytes(v);
    lemma_parse_proof_chunk(v.proof, w, cl + cs);
    lemma_parse_len_chunk(v.public_inputs.len(), cs);
    lemma_parse_fe_list_chunk(v.public_inputs, SCALAR_WIDTH as nat, Seq::empty());
    assert(fe_list_bytes(v.public_inputs, SCALAR_WIDTH as nat) + Seq::<u8>::empty() =~= cs);
    lemma_assoc(seq![v.eliptic_curve_id.spec_encode()] + cp, cl, cs);
    lemma_assoc(seq![v.eliptic_curve_id.spec_encode()], cp, cl + cs);
    assert(b.skip(1) =~= cp + (cl + cs));
    assert(parse_proof(cp + (cl + cs), w) == Some((v.proof, cl + cs)));
    assert(parse_len(cl + cs) == Some((v.public_inputs.len(), cs)));
    assert(parse_fe_list(cs, v.public_inputs.len(), SCALAR_WIDTH as nat) == Some(
        (v.public_inputs, Seq::<u8>::empty()),
    ));
    assert(b[0] == v.eliptic_curve_id.spec_encode());
    match v.eliptic_curve_id {
        ElipticCurveId::Bn254 => {
            assert(b[0] == 0);
        },
        ElipticCurveId::Bls12_381 => {
            assert(b[0] == 1);
        },
    }
    assert(parse_inputs(b) == Some(v));
}


/// Powers of 256 up to the count width.
proof fn lemma_pow256_8()
    ensures
        pow256(8) == 0x1_0000_0000_0000_0000,
{
    assert(pow256(0) == 1);
    assert(pow256(1) == 256);
    assert(pow256(2) == 0x1_0000);
    assert(pow256(3) == 0x100_0000);
    assert(pow256(4) == 0x1_0000_0000);
    assert(pow256(5) == 0x100_0000_0000);
    assert(pow256(6) == 0x1_0000_0000_0000);
    assert(pow256(7) == 0x100_0000_0000_0000);
    assert(pow256(8) == 0x1_0000_0000_0000_0000);
}

/// Powers of 256 increase with the exponent.
proof fn lemma_pow256_increases(a: nat, b: nat)
    requires
        a <= b,
    ensures
        pow256(a) <= pow256(b),
    decreases b,
{
    if a < b {
        lemma_pow256_increases(a, (b - 1) as nat);
    }
}

/// The chunk width of a base-field element on the given curve.
fn width_of(c: &ElipticCurveId) -> (w: usize)
    ensures
        w as nat == base_field_width(*c),
        1 <= w <= 48,
{
    match c {
        ElipticCurveId::Bn254 => 32,
        ElipticCurveId::Bls12_381 => 48,
    }
}

/// Appends `n` zero bytes.
#[verifier::loop_isolation(false)]
fn push_zeros(out: &mut Vec<u8>, n: usize)
    ensures
        final(out)@ == old(out)@ + zeros(n as nat),
{
    let mut k: usize = 0;
    while k < n
        invariant
            0 <= k <= n,
            out@ == old(out)@ + zeros(k as nat),
        decreases n - k,
    {
        out.push(0);
        proof {
            assert(out@ =~= old(out)@ + zeros((k + 1) as nat));
        }
        k = k + 1;
    }
}

/// Appends the bytes of `v`.
#[verifier::loop_isolation(false)]
fn push_bytes(out: &mut Vec<u8>, v: &Vec<u8>)
    ensures
        final(out)@ == old(out)@ + v@,
{
    let mut k: usize = 0;
    while k < v.len()
        invariant
            0 <= k <= v@.len(),
            out@ == old(out)@ + v@.take(k as int),
        decreases v@.len() - k,
    {
        out.push(v[k]);
        proof {
            assert(out@ =~= old(out)@ + v@.take(k + 1));
        }
        k = k + 1;
    }
    proof {
        assert(v@.take(v@.len() as int) =~= v@);
    }
}

/// Appends the fixed-width chunk of a field element.
#[verifier::loop_isolation(false)]
fn push_fe_chunk(out: &mut Vec<u8>, fe: &FieldElement, w: usize)
    requires
        fe@.len() <= w,
    ensures
        final(out)@ == old(out)@ + fe_chunk(fe@, w as nat),
{
    let b = fe.be_bytes();
    push_zeros(out, w - b.len());
    push_bytes(out, b);
    proof {
        assert(out@ =~= old(out)@ + fe_chunk(fe@, w as nat));
    }
}

/// Appends the chunk of a G1 point.
#[verifier::loop_isolation(false)]
fn push_g1_chunk(out: &mut Vec<u8>, p: &G1Affine, w: usize)
    requires
        g1_fits(p@, w as nat),
        w <= 48,
    ensures
        final(out)@ == old(out)@ + g1_chunk(p@, w as nat),
{
    match p {
        G1Affine::Infinity => {
            out.push(1);
            push_zeros(out, 2 * w);
            proof {
                assert(out@ =~= old(out)@ + (seq![1u8] + zeros(2 * (w as nat))));
            }
        },
        G1Affine::Affine { x, y } => {
            out.push(0);
            push_fe_chunk(out, x, w);
            push_fe_chunk(out, y, w);
            proof {
                assert(out@ =~= old(out)@ + (seq![0u8] + fe_chunk(x@, w as nat) + fe_chunk(
                    y@,
                    w as nat,
                )));
            }
        },
    }
}

/// Appends the chunk of a G2 point.
#[verifier::loop_isolation(false)]
fn push_g2_chunk(out: &mut Vec<u8>, p: &G2Affine, w: usize)
    requires
        g2_fits(p@, w as nat),
        w <= 48,
    ensures
        final(out)@ == old(out)@ + g2_chunk(p@, w as nat),
{
    match p {
        G2Affine::Infinity => {
            out.push(1);
            push_zeros(out, 4 * w);
            proof {
                assert(out@ =~= old(out)@ + (seq![1u8] + zeros(4 * (w as nat))));
            }
        },
        G2Affine::Affine { x_c0, x_c1, y_c0, y_c1 } => {
            out.push(0);
            push_fe_chunk(out, x_c0, w);
            push_fe_chunk(out, x_c1, w);
            push_fe_chunk(out, y_c0, w);
            push_fe_chunk(out, y_c1, w);
            proof {
                assert(out@ =~= old(out)@ + (seq![0u8] + fe_chunk(x_c0@, w as nat) + fe_chunk(
                    x_c1@,
                    w as nat,
                ) + fe_chunk(y_c0@, w as nat) + fe_chunk(y_c1@, w as nat)));
            }
        },
    }
}

/// Appends a count as its 8 little-endian bytes.
#[verifier::loop_isolation(false)]
fn push_len_u64(out: &mut Vec<u8>, n: u64)
    ensures
        final(out)@ == old(out)@ + le_len_bytes(n as nat, 8),
{
    let mut m: u64 = n;
    let mut k: usize = 0;
    while k < 8
        invariant
            0 <= k <= 8,
            out@ + le_len_bytes(m as nat, (8 - k) as nat) == old(out)@ + le_len_bytes(n as nat, 8),
        decreases 8 - k,
    {
        let ghost m0 = m as nat;
        let b = (m % 256) as u8;
        out.push(b);
        m = m / 256;
        proof {
            assert(le_len_bytes(m0, (8 - k) as nat) == seq![(m0 % 256) as u8] + le_len_bytes(
                m0 / 256,
                (7 - k) as nat,
            ));
            assert(out@ + le_len_bytes(m as nat, (7 - k) as nat) =~= old(out)@ + le_len_bytes(
                n as nat,
                8,
            ));
        }
        k = k + 1;
    }
    proof {
        assert(le_len_bytes(m as nat, 0) =~= Seq::<u8>::empty());
        assert(out@ + Seq::<u8>::empty() =~= out@);
    }
}

/// Reads one fixed-width field element chunk at `pos`.
#[verifier::loop_isolation(false)]
fn read_fe(bytes: &Vec<u8>, pos: usize, w: usize) -> (r: Result<(FieldElement, usize), DecodeError>)
    requires
        pos <= bytes@.len(),
        1 <= w <= 48,
    ensures
        match r {
            Ok(t) => {
                &&& parse_fe(bytes@.skip(pos as int), w as nat) == Some(
                    (t.0@, bytes@.skip(t.1 as int)),
                )
                &&& t.1 == pos + w
                &&& t.1 <= bytes@.len()
                &&& t.0.wf()
                &&& t.0@.len() <= w
            },
            Err(e) => {
                &&& parse_fe(bytes@.skip(pos as int), w as nat) is None
                &&& e == DecodeError::MalformedEncoding
            },
        },
{
    if bytes.len() - pos < w {
        return Err(DecodeError::MalformedEncoding);
    }
    let mut chunk: Vec<u8> = Vec::new();
    let mut k: usize = 0;
    while k < w
        invariant
            0 <= k <= w,
            pos + w <= bytes@.len(),
            chunk@ == bytes@.subrange(pos as int, pos + k),
        decreases w - k,
    {
        chunk.push(bytes[pos + k]);
        proof {
            assert(chunk@ =~= bytes@.subrange(pos as int, pos + k + 1));
        }
        k = k + 1;
    }
    let fe = FieldElement::from_be_bytes(chunk);
    proof {
        assert(bytes@.subrange(pos as int, pos + w) =~= bytes@.skip(pos as int).take(w as int));
        assert(bytes@.skip(pos as int).skip(w as int) =~= bytes@.skip(pos + w));
    }
    Ok((fe, pos + w))
}

/// Reads one G1 point chunk at `pos`.
#[verifier::loop_isolation(false)]
fn read_g1(bytes: &Vec<u8>, pos: usize, w: usize) -> (r: Result<(G1Affine, usize), DecodeError>)
    requires
        pos <= bytes@.len(),
        1 <= w <= 48,
    ensures
        match r {
            Ok(t) => {
                &&& parse_g1(bytes@.skip(pos as int), w as nat) == Some(
                    (t.0@, bytes@.skip(t.1 as int)),
                )
                &&& t.1 == pos + 1 + 2 * w
                &&& t.1 <= bytes@.len()
                &&& t.0.wf()
                &&& g1_fits(t.0@, w as nat)
            },
            Err(e) => {
                &&& parse_g1(bytes@.skip(pos as int), w as nat) is None
                &&& e == DecodeError::MalformedEncoding
            },
        },
{
    if pos == bytes.len() {
        return Err(DecodeError::MalformedEncoding);
    }
    let flag = bytes[pos];
    let ghost rest = bytes@.skip(pos + 1);
    proof {
        assert(bytes@.skip(pos as int)[0] == flag);
        assert(bytes@.skip(pos as int).skip(1) =~= rest);
    }
    if flag == 0 {
        let (x, p1) = match read_fe(bytes, pos + 1, w) {
            Ok(t) => t,
            Err(e) => {
                return Err(e);
            },
        };
        let (y, p2) = match read_fe(bytes, p1, w) {
            Ok(t) => t,
            Err(e) => {
                return Err(e);
            },
        };
        let p = G1Affine::Affine { x, y };
        proof {
            assert(p@ == G1View::Affine { x: x@, y: y@ });
        }
        Ok((p, p2))
    } else if flag == 1 {
        if bytes.len() - (pos + 1) < 2 * w {
            return Err(DecodeError::MalformedEncoding);
        }
        let mut k: usize = 0;
        while k < 2 * w
            invariant
                0 <= k <= 2 * w,
                pos + 1 + 2 * w <= bytes@.len(),
                rest == bytes@.skip(pos + 1),
                forall|m: int| 0 <= m < k ==> rest[m] == 0,
            decreases 2 * w - k,
        {
            if bytes[pos + 1 + k] != 0 {
                proof {
                    assert(rest.take(2 * (w as int))[k as int] != 0);
                    assert(!all_zero(rest.take(2 * (w as int))));
                }
                return Err(DecodeError::MalformedEncoding);
            }
            k = k + 1;
        }
        proof {
            assert(all_zero(rest.take(2 * (w as int))));
            assert(rest.skip(2 * (w as int)) =~= bytes@.skip(pos + 1 + 2 * w));
        }
        Ok((G1Affine::Infinity, pos + 1 + 2 * w))
    } else {
        Err(DecodeError::MalformedEncoding)
    }
}

/// Reads one G2 point chunk at `pos`.
#[verifier::loop_isolation(false)]
fn read_g2(bytes: &Vec<u8>, pos: usize, w: usize) -> (r: Result<(G2Affine, usize), DecodeError>)
    requires
        pos <= bytes@.len(),
        1 <= w <= 48,
    ensures
        match r {
            Ok(t) => {
                &&& parse_g2(bytes@.skip(pos as int), w as nat) == Some(
                    (t.0@, bytes@.skip(t.1 as int)),
                )
                &&& t.1 == pos + 1 + 4 * w
                &&& t.1 <= bytes@.len()
                &&& t.0.wf()
                &&& g2_fits(t.0@, w as nat)
            },
            Err(e) => {
                &&& parse_g2(bytes@.skip(pos as int), w as nat) is None
                &&& e == DecodeError::MalformedEncoding
            },
        },
{
    if pos == bytes.len() {
        return Err(DecodeError::MalformedEncoding);
    }
    let flag = bytes[pos];
    let ghost rest = bytes@.skip(pos + 1);
    proof {
        assert(bytes@.skip(pos as int)[0] == flag);
        assert(bytes@.skip(pos as int).skip(1) =~= rest);
    }
    if flag == 0 {
        let (x_c0, p1) = match read_fe(bytes, pos + 1, w) {
            Ok(t) => t,
            Err(e) => {
                return Err(e);
            },
        };
        let (x_c1, p2) = match read_fe(bytes, p1, w) {
            Ok(t) => t,
            Err(e) => {
                return Err(e);
            },
        };
        let (y_c0, p3) = match read_fe(bytes, p2, w) {
            Ok(t) => t,
            Err(e) => {
                return Err(e);
            },
        };
        let (y_c1, p4) = match read_fe(bytes, p3, w) {
            Ok(t) => t,
            Err(e) => {
                return Err(e);
            },
        };
        let p = G2Affine::Affine { x_c0, x_c1, y_c0, y_c1 };
        proof {
            assert(p@ == G2View::Affine { x_c0: x_c0@, x_c1: x_c1@, y_c0: y_c0@, y_c1: y_c1@ });
        }
        Ok((p, p4))
    } else if flag == 1 {
        if bytes.len() - (pos + 1) < 4 * w {
            return Err(DecodeError::MalformedEncoding);
        }
        let mut k: usize = 0;
        while k < 4 * w
            invariant
                0 <= k <= 4 * w,
                pos + 1 + 4 * w <= bytes@.len(),
                rest == bytes@.skip(pos + 1),
                forall|m: int| 0 <= m < k ==> rest[m] == 0,
            decreases 4 * w - k,
        {
            if bytes[pos + 1 + k] != 0 {
                proof {
                    assert(rest.take(4 * (w as int))[k as int] != 0);
                    assert(!all_zero(rest.take(4 * (w as int))));
                }
                return Err(DecodeError::MalformedEncoding);
            }
            k = k + 1;
        }
        proof {
            assert(all_zero(rest.take(4 * (w as int))));
            assert(rest.skip(4 * (w as int)) =~= bytes@.skip(pos + 1 + 4 * w));
        }
        Ok((G2Affine::Infinity, pos + 1 + 4 * w))
    } else {
        Err(DecodeError::MalformedEncoding)
    }
}

/// Reads the 8-byte little-endian count at `pos`.
#[verifier::loop_isolation(false)]
fn read_len(bytes: &Vec<u8>, pos: usize) -> (r: Result<(u64, usize), DecodeError>)
    requires
        pos <= bytes@.len(),
    ensures
        match r {
            Ok(t) => {
                &&& parse_len(bytes@.skip(pos as int)) == Some(
                    (t.0 as nat, bytes@.skip(t.1 as int)),
                )
                &&& t.1 == pos + 8
                &&& t.1 <= bytes@.len()
            },
            Err(e) => {
                &&& parse_len(bytes@.skip(pos as int)) is None
                &&& e == DecodeError::MalformedEncoding
            },
        },
{
    if bytes.len() - pos < 8 {
        return Err(DecodeError::MalformedEncoding);
    }
    let ghost chunk = bytes@.subrange(pos as int, pos + 8);
    let mut acc: u64 = 0;
    let mut k: usize = 8;
    proof {
        lemma_pow256_8();
        assert(chunk.skip(8) =~= Seq::<u8>::empty());
    }
    while k > 0
        invariant
            0 <= k <= 8,
            pos + 8 <= bytes@.len(),
            chunk == bytes@.subrange(pos as int, pos + 8),
            acc as nat == le_bytes_value(chunk.skip(k as int)),
            acc as nat <= pow256((8 - k) as nat) - 1,
            pow256(8) == 0x1_0000_0000_0000_0000,
        decreases k,
    {
        k = k - 1;
        let b = bytes[pos + k];
        proof {
            lemma_pow256_increases((7 - k) as nat, 7);
            assert(pow256(7) == 0x100_0000_0000_0000) by {
                lemma_pow256_8();
                assert(pow256(8) == 256 * pow256(7));
            }
            assert(pow256((8 - k) as nat) == 256 * pow256((7 - k) as nat));
            assert(chunk.skip(k as int)[0] == chunk[k as int]);
            assert(chunk.skip(k as int).skip(1) =~= chunk.skip(k + 1));
            assert(chunk[k as int] == bytes@[pos + k]);
        }
        acc = (b as u64) + acc * 256;
    }
    proof {
        assert(chunk.skip(0) =~= chunk);
        assert(chunk =~= bytes@.skip(pos as int).take(8));
        assert(bytes@.skip(pos as int).skip(8) =~= bytes@.skip(pos + 8));
    }
    Ok((acc, pos + 8))
}


impl Groth16VerifierConfiguration {
    /// BinaryRoundTrip encode: the canonical compressed bytes of the whole
    /// document.  Total over well-formed documents; the hex JSON path is
    /// for the downstream consumer, this one is for exact persistence.
    #[verifier::loop_isolation(false)]
    #[verifier::rlimit(60)]
    pub fn to_bytes(&self) -> (r: Vec<u8>)
        requires
            config_fits(self@),
        ensures
            r@ == config_bytes(self@),
    {
        let c = self.eliptic_curve_id();
        let w = width_of(&c);
        let vk = self.verifying_key();
        proof {
            assert(vk@ == self@.verifying_key);
            lemma_pow256_8();
        }
        let mut out: Vec<u8> = Vec::new();
        out.push(c.encode());
        push_g1_chunk(&mut out, &vk.alpha_g1, w);
        push_g2_chunk(&mut out, &vk.beta_g2, w);
        push_g2_chunk(&mut out, &vk.gamma_g2, w);
        push_g2_chunk(&mut out, &vk.delta_g2, w);
        push_len_u64(&mut out, vk.ic.len() as u64);
        let ghost prefix = out@;
        let mut i: usize = 0;
        while i < vk.ic.len()
            invariant
                0 <= i <= vk.ic@.len(),
                out@ == prefix + g1_list_bytes(g1_views(vk.ic@).take(i as int), w as nat),
            decreases vk.ic@.len() - i,
        {
            proof {
                assert(g1_views(vk.ic@)[i as int] == vk.ic@[i as int]@);
            }
            push_g1_chunk(&mut out, &vk.ic[i], w);
            proof {
                let ps = g1_views(vk.ic@);
                assert(ps.take(i + 1).drop_last() =~= ps.take(i as int));
                assert(ps.take(i + 1).last() == vk.ic@[i as int]@);
                assert(out@ =~= prefix + g1_list_bytes(ps.take(i + 1), w as nat));
            }
            i = i + 1;
        }
        proof {
            assert(g1_views(vk.ic@).take(vk.ic@.len() as int) =~= g1_views(vk.ic@));
            assert(out@ =~= config_bytes(self@));
        }
        out
    }

    /// BinaryRoundTrip decode: accepts exactly the byte strings that some
    /// document encodes to and returns that document; everything else is a
    /// typed error, an unrecognized curve byte reported by its value.
    #[verifier::loop_isolation(false)]
    #[verifier::rlimit(60)]
    pub fn from_bytes(bytes: &Vec<u8>) -> (r: Result<Groth16VerifierConfiguration, DecodeError>)
        ensures
            match r {
                Ok(d) => parse_config(bytes@) == Some(d@),
                Err(e) => parse_config(bytes@) is None && e == doc_decode_error(bytes@),
            },
    {
        if bytes.len() == 0 {
            return Err(DecodeError::MalformedEncoding);
        }
        let id = bytes[0];
        let c = match ElipticCurveId::decode(id) {
            Ok(c) => c,
            Err(e) => {
                return Err(e);
            },
        };
        let w = width_of(&c);
        let (alpha, p1) = match read_g1(bytes, 1, w) {
            Ok(t) => t,
            Err(e) => {
                return Err(e);
            },
        };
        let (beta, p2) = match read_g2(bytes, p1, w) {
            Ok(t) => t,
            Err(e) => {
                return Err(e);
            },
        };
        let (gamma, p3) = match read_g2(bytes, p2, w) {
            Ok(t) => t,
            Err(e) => {
                return Err(e);
            },
        };
        let (delta, p4) = match read_g2(bytes, p3, w) {
            Ok(t) => t,
            Err(e) => {
                return Err(e);
            },
        };
        let (n, p5) = match read_len(bytes, p4) {
            Ok(t) => t,
            Err(e) => {
                return Err(e);
            },
        };
        let mut ic: Vec<G1Affine> = Vec::new();
        let mut pos: usize = p5;
        let mut cnt: u64 = 0;
        while cnt < n
            invariant
                pos <= bytes@.len(),
                cnt <= n,
                ic@.len() == cnt as nat,
                match parse_g1_list(bytes@.skip(pos as int), (n - cnt) as nat, w as nat) {
                    Some(t) => parse_g1_list(bytes@.skip(p5 as int), n as nat, w as nat) == Some(
                        (g1_views(ic@) + t.0, t.1),
                    ),
                    None => parse_g1_list(bytes@.skip(p5 as int), n as nat, w as nat) is None,
                },
            decreases n - cnt,
        {
            let (p, np) = match read_g1(bytes, pos, w) {
                Ok(t) => t,
                Err(e) => {
                    return Err(e);
                },
            };
            proof {
                let m = (n - cnt) as nat;
                let tail = parse_g1_list(bytes@.skip(np as int), (m - 1) as nat, w as nat);
                match tail {
                    Some(t) => {
                        assert(parse_g1_list(bytes@.skip(pos as int), m, w as nat) == Some(
                            (seq![p@] + t.0, t.1),
                        ));
                        assert(g1_views(ic@.push(p)) =~= g1_views(ic@) + seq![p@]);
                        assert((g1_views(ic@) + seq![p@]) + t.0 =~= g1_views(ic@) + (seq![p@]
                            + t.0));
                    },
                    None => {
                        assert(parse_g1_list(bytes@.skip(pos as int), m, w as nat) is None);
                    },
                }
            }
            ic.push(p);
            pos = np;
            cnt = cnt + 1;
        }
        proof {
            assert(parse_g1_list(bytes@.skip(pos as int), 0, w as nat) == Some(
                (Seq::<G1View>::empty(), bytes@.skip(pos as int)),
            ));
            assert(g1_views(ic@) + Seq::<G1View>::empty() =~= g1_views(ic@));
            assert(parse_g1_list(bytes@.skip(p5 as int), n as nat, w as nat) == Some(
                (g1_views(ic@), bytes@.skip(pos as int)),
            ));
        }
        if pos != bytes.len() {
            proof {
                assert(bytes@.skip(pos as int).len() > 0);
            }
            return Err(DecodeError::MalformedEncoding);
        }
        let vk = VerifyingKey { alpha_g1: alpha, beta_g2: beta, gamma_g2: gamma, delta_g2: delta, ic };
        let d = Groth16VerifierConfiguration::new(c, vk);
        proof {
            assert(bytes@.skip(pos as int).len() == 0);
            assert(parse_vk(bytes@.skip(1), w as nat) == Some(
                (vk@, bytes@.skip(pos as int)),
            ));
            assert(d@ == ConfigurationView { eliptic_curve_id: c, verifying_key: vk@ });
            assert(parse_config(bytes@) == Some(d@));
        }
        Ok(d)
    }
}

impl Groth16VerifierInputs {
    /// BinaryRoundTrip encode: the canonical compressed bytes of the whole
    /// document.
    #[verifier::loop_isolation(false)]
    #[verifier::rlimit(60)]
    pub fn to_bytes(&self) -> (r: Vec<u8>)
        requires
            inputs_fits(self@),
        ensures
            r@ == inputs_bytes(self@),
    {
        let c = self.eliptic_curve_id();
        let w = width_of(&c);
        let pr = self.groth16_proof();
        let inputs = self.public_inputs();
        proof {
            assert(pr@ == self@.proof);
            assert(fe_views(inputs@) == self@.public_inputs);
            lemma_pow256_8();
        }
        let mut out: Vec<u8> = Vec::new();
        out.push(c.encode());
        push_g1_chunk(&mut out, &pr.a, w);
        push_g2_chunk(&mut out, &pr.b, w);
        push_g1_chunk(&mut out, &pr.c, w);
        push_len_u64(&mut out, inputs.len() as u64);
        let ghost prefix = out@;
        let mut i: usize = 0;
        while i < inputs.len()
            invariant
                0 <= i <= inputs@.len(),
                out@ == prefix + fe_list_bytes(fe_views(inputs@).take(i as int), SCALAR_WIDTH as nat),
            decreases inputs@.len() - i,
        {
            proof {
                assert(fe_views(inputs@)[i as int] == inputs@[i as int]@);
            }
            push_fe_chunk(&mut out, &inputs[i], SCALAR_WIDTH);
            proof {
                let ss = fe_views(inputs@);
                assert(ss.take(i + 1).drop_last() =~= ss.take(i as int));
                assert(ss.take(i + 1).last() == inputs@[i as int]@);
                assert(out@ =~= prefix + fe_list_bytes(ss.take(i + 1), SCALAR_WIDTH as nat));
            }
            i = i + 1;
        }
        proof {
            assert(fe_views(inputs@).take(inputs@.len() as int) =~= fe_views(inputs@));
            assert(out@ =~= inputs_bytes(self@));
        }
        out
    }

    /// BinaryRoundTrip decode: accepts exactly the byte strings that some
    /// inputs document encodes to and returns that document.
    #[verifier::loop_isolation(false)]
    #[verifier::rlimit(60)]
    pub fn from_bytes(bytes: &Vec<u8>) -> (r: Result<Groth16VerifierInputs, DecodeError>)
        ensures
            match r {
                Ok(d) => parse_inputs(bytes@) == Some(d@),
                Err(e) => parse_inputs(bytes@) is None && e == doc_decode_error(bytes@),
            },
    {
        if bytes.len() == 0 {
            return Err(DecodeError::MalformedEncoding);
        }
        let id = bytes[0];
        let c = match ElipticCurveId::decode(id) {
            Ok(c) => c,
            Err(e) => {
                return Err(e);
            },
        };
        let w = width_of(&c);
        let (a, p1) = match read_g1(bytes, 1, w) {
            Ok(t) => t,
            Err(e) => {
                return Err(e);
            },
        };
        let (b, p2) = match read_g2(bytes, p1, w) {
            Ok(t) => t,
            Err(e) => {
                return Err(e);
            },
        };
        let (cc, p3) = match read_g1(bytes, p2, w) {
            Ok(t) => t,
            Err(e) => {
                return Err(e);
            },
        };
        let (n, p4) = match read_len(bytes, p3) {
            Ok(t) => t,
            Err(e) => {
                return Err(e);
            },
        };
        let mut scalars: Vec<FieldElement> = Vec::new();
        let mut pos: usize = p4;
        let mut cnt: u64 = 0;
        while cnt < n
            invariant
                pos <= bytes@.len(),
                cnt <= n,
                scalars@.len() == cnt as nat,
                match parse_fe_list(bytes@.skip(pos as int), (n - cnt) as nat, SCALAR_WIDTH as nat) {
                    Some(t) => parse_fe_list(
                        bytes@.skip(p4 as int),
                        n as nat,
                        SCALAR_WIDTH as nat,
                    ) == Some((fe_views(scalars@) + t.0, t.1)),
                    None => parse_fe_list(
                        bytes@.skip(p4 as int),
                        n as nat,
                        SCALAR_WIDTH as nat,
                    ) is None,
                },
            decreases n - cnt,
        {
            let (fe, np) = match read_fe(bytes, pos, SCALAR_WIDTH) {
                Ok(t) => t,
                Err(e) => {
                    return Err(e);
                },
            };
            proof {
                let m = (n - cnt) as nat;
                let tail = parse_fe_list(bytes@.skip(np as int), (m - 1) as nat, SCALAR_WIDTH as nat);
                match tail {
                    Some(t) => {
                        assert(parse_fe_list(bytes@.skip(pos as int), m, SCALAR_WIDTH as nat)
                            == Some((seq![fe@] + t.0, t.1)));
                        assert(fe_views(scalars@.push(fe)) =~= fe_views(scalars@) + seq![fe@]);
                        assert((fe_views(scalars@) + seq![fe@]) + t.0 =~= fe_views(scalars@) + (
                        seq![fe@] + t.0));
                    },
                    None => {
                        assert(parse_fe_list(bytes@.skip(pos as int), m, SCALAR_WIDTH as nat) is None);
                    },
                }
            }
            scalars.push(fe);
            pos = np;
            cnt = cnt + 1;
        }
        proof {
            assert(parse_fe_list(bytes@.skip(pos as int), 0, SCALAR_WIDTH as nat) == Some(
                (Seq::<Seq<u8>>::empty(), bytes@.skip(pos as int)),
            ));
            assert(fe_views(scalars@) + Seq::<Seq<u8>>::empty() =~= fe_views(scalars@));
            assert(parse_fe_list(bytes@.skip(p4 as int), n as nat, SCALAR_WIDTH as nat) == Some(
                (fe_views(scalars@), bytes@.skip(pos as int)),
            ));
        }
        if pos != bytes.len() {
            proof {
                assert(bytes@.skip(pos as int).len() > 0);
            }
            return Err(DecodeError::MalformedEncoding);
        }
        let pr = Proof { a, b, c: cc };
        let d = Groth16VerifierInputs::new(c, pr, scalars);
        proof {
            assert(bytes@.skip(pos as int).len() == 0);
            assert(parse_proof(bytes@.skip(1), w as nat) == Some((pr@, bytes@.skip(p3 as int))));
            assert(d@ == VerifierInputsView {
                eliptic_curve_id: c,
                proof: pr@,
                public_inputs: fe_views(scalars@),
            });
            assert(parse_inputs(bytes@) == Some(d@));
        }
        Ok(d)
    }
}

} // verus!
