//! Field elements as canonical big-endian byte strings.
//!
//! The proving collaborator supplies scalar- and base-field values; this
//! crate holds each as the big-endian bytes of its non-negative integer
//! representative, with no leading zero byte, so that every element has
//! exactly one representation.

use vstd::prelude::*;

use crate::hex::{
    be_bytes_value, hex_of_be_bytes, hex_str, is_hex_digit, hex_digits_value,
    lemma_be_trim, lemma_hex_str_canonical, lemma_trim_at, lemma_trim_shorter, trim_leading_zeros,
};

verus! {

/// A field element: the canonical big-endian byte string (no leading zero
/// byte) of its non-negative integer representative in `[0, modulus)`.
#[derive(Clone, Debug, PartialEq, Eq)]
pub struct FieldElement {
    bytes: Vec<u8>,
}

impl View for FieldElement {
    type V = Seq<u8>;

    closed spec fn view(&self) -> Seq<u8> {
        self.bytes@
    }
}

impl FieldElement {
    /// Whether the stored bytes are canonical: no leading zero byte.
    pub open spec fn wf(self) -> bool {
        self@.len() == 0 || self@[0] != 0
    }

    /// The integer representative of the element.
    pub open spec fn spec_value(self) -> nat {
        be_bytes_value(self@)
    }

    /// Builds an element from big-endian bytes.  Leading zero bytes are
    /// dropped, so the result is canonical and denotes the same integer;
    /// zero is the empty byte string.
    pub fn from_be_bytes(bytes: Vec<u8>) -> (r: FieldElement)
        ensures
            r@ == trim_leading_zeros(bytes@),
            r.wf(),
            r@.len() <= bytes@.len(),
            r.spec_value() == be_bytes_value(bytes@),
    {
        let mut i: usize = 0;
        while i < bytes.len() && bytes[i] == 0
            invariant
                0 <= i <= bytes@.len(),
                forall|k: int| 0 <= k < i ==> bytes@[k] == 0,
            decreases bytes@.len() - i,
        {
            i = i + 1;
        }
        let mut out: Vec<u8> = Vec::new();
        let mut k: usize = i;
        while k < bytes.len()
            invariant
                0 <= i <= k <= bytes@.len(),
                out@ =~= bytes@.subrange(i as int, k as int),
            decreases bytes@.len() - k,
        {
            out.push(bytes[k]);
            k = k + 1;
        }
        proof {
            lemma_trim_at(bytes@, i as int);
            lemma_be_trim(bytes@);
            lemma_trim_shorter(bytes@);
            assert(out@ =~= bytes@.skip(i as int));
            assert(out@ == trim_leading_zeros(bytes@));
        }
        FieldElement { bytes: out }
    }

    /// The canonical big-endian bytes, most significant first.
    pub fn be_bytes(&self) -> (r: &Vec<u8>)
        ensures
            r@ == self@,
    {
        &self.bytes
    }

    /// ScalarCodec: the canonical minimal-width, lowercase, `0x`-prefixed
    /// hex string of the integer representative.
    pub fn encode(&self) -> (r: String)
        ensures
            r@ == hex_str(self.spec_value()),
    {
        hex_of_be_bytes(&self.bytes)
    }
}

/// ScalarCodec over a sequence: element-wise hex encoding, order preserved,
/// nothing deduplicated.
pub fn encode_sequence(scalars: &Vec<FieldElement>) -> (r: Vec<String>)
    ensures
        r@.len() == scalars@.len(),
        forall|i: int| 0 <= i < r@.len() ==> (#[trigger] r@[i])@ == hex_str(scalars@[i].spec_value()),
{
    let mut out: Vec<String> = Vec::new();
    let mut i: usize = 0;
    while i < scalars.len()
        invariant
            0 <= i <= scalars@.len(),
            out@.len() == i,
            forall|k: int|
                0 <= k < i ==> (#[trigger] out@[k])@ == hex_str(scalars@[k].spec_value()),
        decreases scalars@.len() - i,
    {
        out.push(scalars[i].encode());
        i = i + 1;
    }
    out
}

/// Law: for every scalar, the emitted hex string is `0x` followed by one
/// or more lowercase hex digits, with no leading zero digit beyond a
/// single `0`, and the digits denote exactly the scalar's integer
/// representative.
pub proof fn lemma_scalar_hex_canonical(fe: FieldElement)
    ensures
        hex_str(fe.spec_value()).len() >= 3,
        hex_str(fe.spec_value()).take(2) =~= seq!['0', 'x'],
        forall|i: int|
            2 <= i < hex_str(fe.spec_value()).len() ==> is_hex_digit(
                #[trigger] hex_str(fe.spec_value())[i],
            ),
        hex_str(fe.spec_value()).len() > 3 ==> hex_str(fe.spec_value())[2] != '0',
        hex_digits_value(hex_str(fe.spec_value()).skip(2)) == fe.spec_value(),
{
    lemma_hex_str_canonical(fe.spec_value());
}

/// The byte strings of a sequence of field elements, in order.
pub open spec fn fe_views(ss: Seq<FieldElement>) -> Seq<Seq<u8>> {
    ss.map_values(|fe: FieldElement| fe@)
}

} // verus!
