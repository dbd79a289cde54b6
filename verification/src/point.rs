//! Affine curve points and their canonical hex form.
//!
//! G1 points carry one base-field coordinate pair; G2 points carry one
//! degree-2-extension coordinate pair, each coordinate given by its two
//! base-field components in the fixed order component 0, then component 1.
//! Both carry an explicit point-at-infinity state distinct from `(0, 0)`.

use vstd::prelude::*;

use crate::field::FieldElement;
use crate::hex::{
    be_bytes_value, hex_digits_value, hex_of_be_bytes, hex_str, lemma_hex_str_canonical,
};

verus! {

/// An affine G1 point, or the distinguished point at infinity.
#[derive(Clone, Debug, PartialEq, Eq)]
pub enum G1Affine {
    Infinity,
    Affine { x: FieldElement, y: FieldElement },
}

/// An affine G2 point: each coordinate of the degree-2 extension given by
/// its two base-field components, or the point at infinity.
#[derive(Clone, Debug, PartialEq, Eq)]
pub enum G2Affine {
    Infinity,
    Affine { x_c0: FieldElement, x_c1: FieldElement, y_c0: FieldElement, y_c1: FieldElement },
}

impl G1Affine {
    /// Whether the coordinates are canonical byte strings.
    pub open spec fn wf(self) -> bool {
        match self {
            G1Affine::Infinity => true,
            G1Affine::Affine { x, y } => x.wf() && y.wf(),
        }
    }

    /// The integer value of the `x` coordinate; zero at infinity.
    pub open spec fn x_value(self) -> nat {
        match self {
            G1Affine::Infinity => 0,
            G1Affine::Affine { x, y } => x.spec_value(),
        }
    }

    /// The integer value of the `y` coordinate; zero at infinity.
    pub open spec fn y_value(self) -> nat {
        match self {
            G1Affine::Infinity => 0,
            G1Affine::Affine { x, y } => y.spec_value(),
        }
    }
}

impl G2Affine {
    /// Whether the component byte strings are canonical.
    pub open spec fn wf(self) -> bool {
        match self {
            G2Affine::Infinity => true,
            G2Affine::Affine { x_c0, x_c1, y_c0, y_c1 } => x_c0.wf() && x_c1.wf() && y_c0.wf()
                && y_c1.wf(),
        }
    }

    /// The integer value of component 0 of `x`; zero at infinity.
    pub open spec fn x0_value(self) -> nat {
        match self {
            G2Affine::Infinity => 0,
            G2Affine::Affine { x_c0, .. } => x_c0.spec_value(),
        }
    }

    /// The integer value of component 1 of `x`; zero at infinity.
    pub open spec fn x1_value(self) -> nat {
        match self {
            G2Affine::Infinity => 0,
            G2Affine::Affine { x_c1, .. } => x_c1.spec_value(),
        }
    }

    /// The integer value of component 0 of `y`; zero at infinity.
    pub open spec fn y0_value(self) -> nat {
        match self {
            G2Affine::Infinity => 0,
            G2Affine::Affine { y_c0, .. } => y_c0.spec_value(),
        }
    }

    /// The integer value of component 1 of `y`; zero at infinity.
    pub open spec fn y1_value(self) -> nat {
        match self {
            G2Affine::Infinity => 0,
            G2Affine::Affine { y_c1, .. } => y_c1.spec_value(),
        }
    }
}

/// The mathematical value of a G1 point: its canonical coordinate byte
/// strings, or infinity.
pub enum G1View {
    Infinity,
    Affine { x: Seq<u8>, y: Seq<u8> },
}

/// The mathematical value of a G2 point: the two base-field components of
/// each coordinate, component 0 first, or infinity.
pub enum G2View {
    Infinity,
    Affine { x_c0: Seq<u8>, x_c1: Seq<u8>, y_c0: Seq<u8>, y_c1: Seq<u8> },
}

impl View for G1Affine {
    type V = G1View;

    open spec fn view(&self) -> G1View {
        match *self {
            G1Affine::Infinity => G1View::Infinity,
            G1Affine::Affine { x, y } => G1View::Affine { x: x@, y: y@ },
        }
    }
}

impl View for G2Affine {
    type V = G2View;

    open spec fn view(&self) -> G2View {
        match *self {
            G2Affine::Infinity => G2View::Infinity,
            G2Affine::Affine { x_c0, x_c1, y_c0, y_c1 } => G2View::Affine {
                x_c0: x_c0@,
                x_c1: x_c1@,
                y_c0: y_c0@,
                y_c1: y_c1@,
            },
        }
    }
}

/// The values of a sequence of G1 points, in order.
pub open spec fn g1_views(ps: Seq<G1Affine>) -> Seq<G1View> {
    ps.map_values(|p: G1Affine| p@)
}

/// The canonical hex JSON shape of a G1 point.
#[derive(Clone, Debug, PartialEq, Eq)]
pub struct G1Point {
    pub x: String,
    pub y: String,
}

/// The canonical hex JSON shape of a G2 point: each coordinate as its two
/// base-field components, component 0 first.
#[derive(Clone, Debug, PartialEq, Eq)]
pub struct G2Point {
    pub x_c0: String,
    pub x_c1: String,
    pub y_c0: String,
    pub y_c1: String,
}

/// PointCodec: the canonical hex form of a G1 point.  The point at infinity
/// emits the all-zero coordinates `0x0`, which the hex form cannot
/// distinguish from the literal zero pair.
pub fn encode_g1(p: &G1Affine) -> (r: G1Point)
    ensures
        r.x@ == hex_str(p.x_value()),
        r.y@ == hex_str(p.y_value()),
{
    match p {
        G1Affine::Infinity => {
            let zero: Vec<u8> = Vec::new();
            proof {
                assert(be_bytes_value(zero@) == 0);
            }
            G1Point { x: hex_of_be_bytes(&zero), y: hex_of_be_bytes(&zero) }
        },
        G1Affine::Affine { x, y } => G1Point { x: x.encode(), y: y.encode() },
    }
}

/// PointCodec: the canonical hex form of a G2 point, component 0 of each
/// coordinate first.  The component order is part of the wire contract.
pub fn encode_g2(p: &G2Affine) -> (r: G2Point)
    ensures
        r.x_c0@ == hex_str(p.x0_value()),
        r.x_c1@ == hex_str(p.x1_value()),
        r.y_c0@ == hex_str(p.y0_value()),
        r.y_c1@ == hex_str(p.y1_value()),
{
    match p {
        G2Affine::Infinity => {
            let zero: Vec<u8> = Vec::new();
            proof {
                assert(be_bytes_value(zero@) == 0);
            }
            G2Point {
                x_c0: hex_of_be_bytes(&zero),
                x_c1: hex_of_be_bytes(&zero),
                y_c0: hex_of_be_bytes(&zero),
                y_c1: hex_of_be_bytes(&zero),
            }
        },
        G2Affine::Affine { x_c0, x_c1, y_c0, y_c1 } => G2Point {
            x_c0: x_c0.encode(),
            x_c1: x_c1.encode(),
            y_c0: y_c0.encode(),
            y_c1: y_c1.encode(),
        },
    }
}

/// Law: for every G1 point other than infinity, reinterpreting the emitted
/// hex coordinates as integers recovers exactly the point's `(x, y)` pair.
pub proof fn lemma_g1_hex_round_trip(p: G1Affine)
    requires
        !(p is Infinity),
    ensures
        hex_digits_value(hex_str(p.x_value()).skip(2)) == p.x_value(),
        hex_digits_value(hex_str(p.y_value()).skip(2)) == p.y_value(),
{
    lemma_hex_str_canonical(p.x_value());
    lemma_hex_str_canonical(p.y_value());
}

/// The same G2 point with the two base-field components of each coordinate
/// exchanged.
pub open spec fn swap_components(p: G2Affine) -> G2Affine {
    match p {
        G2Affine::Infinity => G2Affine::Infinity,
        G2Affine::Affine { x_c0, x_c1, y_c0, y_c1 } => G2Affine::Affine {
            x_c0: x_c1,
            x_c1: x_c0,
            y_c0: y_c1,
            y_c1: y_c0,
        },
    }
}

} // verus!
