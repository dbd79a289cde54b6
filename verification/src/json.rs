//! The fixed JSON shapes of points, scalars and curve identifiers.
//!
//! Serialization is deterministic: the field order is fixed and the same
//! logical input always yields the same text, stated character for
//! character by the spec functions here.

use vstd::prelude::*;

use crate::curve_id::ElipticCurveId;
use crate::field::FieldElement;
use crate::hex::{hex_char_value, hex_str, is_hex_digit, lemma_hex_str_canonical,
    lemma_hex_str_injective};
use crate::point::{encode_g1, encode_g2, swap_components, G1Affine, G2Affine};
use vstd::string::StringExecFns;

verus! {

/// The decimal wire text of a curve identifier's integer code.
pub open spec fn curve_id_decimal(c: ElipticCurveId) -> Seq<char> {
    match c {
        ElipticCurveId::Bn254 => "0"@,
        ElipticCurveId::Bls12_381 => "1"@,
    }
}

/// The JSON object of a G1 point's hex form.
pub open spec fn g1_json(p: G1Affine) -> Seq<char> {
    "{\"x\":\""@ + hex_str(p.x_value()) + "\",\"y\":\""@ + hex_str(p.y_value()) + "\"}"@
}

/// The JSON object of a G2 point's hex form, component 0 of each
/// coordinate first.
pub open spec fn g2_json(p: G2Affine) -> Seq<char> {
    "{\"x\":[\""@ + hex_str(p.x0_value()) + "\",\""@ + hex_str(p.x1_value()) + "\"],\"y\":[\""@
        + hex_str(p.y0_value()) + "\",\""@ + hex_str(p.y1_value()) + "\"]}"@
}

/// A hex string wrapped in JSON quotes.
pub open spec fn quoted_hex(v: nat) -> Seq<char> {
    "\""@ + hex_str(v) + "\""@
}

/// The JSON objects of a sequence of G1 points, in order.
pub open spec fn g1_jsons(ps: Seq<G1Affine>) -> Seq<Seq<char>> {
    ps.map_values(|p: G1Affine| g1_json(p))
}

/// The quoted hex strings of a sequence of scalars, in order.
pub open spec fn scalar_jsons(ss: Seq<FieldElement>) -> Seq<Seq<char>> {
    ss.map_values(|fe: FieldElement| quoted_hex(fe.spec_value()))
}

/// JSON fragments joined with commas, in order.
pub open spec fn join_comma(parts: Seq<Seq<char>>) -> Seq<char>
    decreases parts.len(),
{
    if parts.len() == 0 {
        Seq::empty()
    } else if parts.len() == 1 {
        parts[0]
    } else {
        join_comma(parts.drop_last()) + ","@ + parts.last()
    }
}

/// Joining one more fragment appends a comma first, except for the first.
pub proof fn lemma_join_comma_step(parts: Seq<Seq<char>>, i: int)
    requires
        0 <= i < parts.len(),
    ensures
        i == 0 ==> join_comma(parts.take(1)) == parts[0],
        i > 0 ==> join_comma(parts.take(i + 1)) == join_comma(parts.take(i)) + ","@ + parts[i],
{
    let t = parts.take(i + 1);
    assert(t.drop_last() =~= parts.take(i));
    assert(t.last() == parts[i]);
    if i == 0 {
        assert(t.len() == 1);
        assert(t[0] == parts[0]);
    }
}

/// Law: the G2 component order is fixed on the wire.  For a point other
/// than infinity whose two `x` components differ in value, emitting
/// component 1 first changes the serialized JSON object itself.
#[verifier::rlimit(100)]
pub proof fn lemma_g2_json_component_order(p: G2Affine)
    requires
        !(p is Infinity),
        p.x0_value() != p.x1_value(),
    ensures
        g2_json(swap_components(p)) != g2_json(p),
{
    let q = swap_components(p);
    let a = hex_str(p.x0_value());
    let a2 = hex_str(q.x0_value());
    lemma_hex_str_canonical(p.x0_value());
    lemma_hex_str_canonical(p.x1_value());
    lemma_hex_str_injective(p.x0_value(), p.x1_value());
    assert(q.x0_value() == p.x1_value());
    reveal_strlit("{\"x\":[\"");
    reveal_strlit("\",\"");
    let pre = "{\"x\":[\""@;
    let quote = "\",\""@;
    assert(pre.len() == 7);
    assert(quote[0] == '"');
    if g2_json(q) == g2_json(p) {
        let s1 = g2_json(p);
        let s2 = g2_json(q);
        assert(forall|j: int| 0 <= j < a.len() ==> s1[7 + j] == a[j]);
        assert(forall|j: int| 0 <= j < a2.len() ==> s2[7 + j] == a2[j]);
        if a.len() == a2.len() {
            assert(forall|j: int| 0 <= j < a.len() ==> a[j] == a2[j]);
            assert(a =~= a2);
            assert(false);
        } else if a.len() < a2.len() {
            assert(s1[7 + a.len() as int] == quote[0]);
            assert(s2[7 + a.len() as int] == a2[a.len() as int]);
            assert(is_hex_digit(a2[a.len() as int]));
            assert(hex_char_value('"') == 16);
            assert(false);
        } else {
            assert(s2[7 + a2.len() as int] == quote[0]);
            assert(s1[7 + a2.len() as int] == a[a2.len() as int]);
            assert(is_hex_digit(a[a2.len() as int]));
            assert(hex_char_value('"') == 16);
            assert(false);
        }
    }
}

/// Appends the curve identifier's decimal wire text.
pub fn append_curve_id(s: &mut String, c: &ElipticCurveId)
    ensures
        final(s)@ == old(s)@ + curve_id_decimal(*c),
{
    match c {
        ElipticCurveId::Bn254 => s.append("0"),
        ElipticCurveId::Bls12_381 => s.append("1"),
    }
}

/// Appends the JSON object of a G1 point.
pub fn append_g1_json(s: &mut String, p: &G1Affine)
    ensures
        final(s)@ == old(s)@ + g1_json(*p),
{
    let pt = encode_g1(p);
    s.append("{\"x\":\"");
    s.append(pt.x.as_str());
    s.append("\",\"y\":\"");
    s.append(pt.y.as_str());
    s.append("\"}");
    proof {
        assert(s@ =~= old(s)@ + g1_json(*p));
    }
}

/// Appends the JSON object of a G2 point, component 0 first.
pub fn append_g2_json(s: &mut String, p: &G2Affine)
    ensures
        final(s)@ == old(s)@ + g2_json(*p),
{
    let pt = encode_g2(p);
    s.append("{\"x\":[\"");
    s.append(pt.x_c0.as_str());
    s.append("\",\"");
    s.append(pt.x_c1.as_str());
    s.append("\"],\"y\":[\"");
    s.append(pt.y_c0.as_str());
    s.append("\",\"");
    s.append(pt.y_c1.as_str());
    s.append("\"]}");
    proof {
        assert(s@ =~= old(s)@ + g2_json(*p));
    }
}

/// Appends a scalar's hex string wrapped in JSON quotes.
pub fn append_quoted_hex(s: &mut String, fe: &FieldElement)
    ensures
        final(s)@ == old(s)@ + quoted_hex(fe.spec_value()),
{
    let h = fe.encode();
    s.append("\"");
    s.append(h.as_str());
    s.append("\"");
    proof {
        assert(s@ =~= old(s)@ + quoted_hex(fe.spec_value()));
    }
}

} // verus!
