//! Colours in four spaces, the bounds that their coordinates keep, and the
//! decisions of the conversions between them. The arithmetic of the
//! conversions is the caller's.

use crate::hue::{is_turned, turn_hue, THREE_SIXTY};
use crate::single::{
    equal, is_equal, is_less, is_nan, lemma_units_grow, less, nan, units, ONE, ZERO,
};
use vstd::prelude::*;

verus! {

/// The bit pattern of one hundred.
pub const HUNDRED: u32 = 0x42C8_0000;

/// `x` kept between `low` and `high`: `low` where `x` is less than `low`,
/// `high` where `x` is greater than `high`, and `x` itself otherwise, also
/// where `x` is no number.
pub open spec fn clamped(x: u32, low: u32, high: u32) -> u32 {
    if is_less(x, low) {
        low
    } else if is_less(high, x) {
        high
    } else {
        x
    }
}

/// `x` is no number, or lies between `low` and `high`, the ends included.
pub open spec fn is_within(x: u32, low: u32, high: u32) -> bool {
    is_nan(x) || (!is_less(x, low) && !is_less(high, x))
}

/// Keeps `x` between `low` and `high`. What is no number stays as it is.
pub fn clamp(x: u32, low: u32, high: u32) -> (r: u32)
    requires
        !is_nan(low),
        !is_nan(high),
        !is_less(high, low),
    ensures
        r == clamped(x, low, high),
        is_within(r, low, high),
        is_within(x, low, high) ==> r == x,
{
    if less(x, low) {
        low
    } else if less(high, x) {
        high
    } else {
        x
    }
}

/// A colour in CIE XYZ, relative to the D50 white point. Its coordinates are
/// not bounded.
#[derive(Debug, Clone, Copy, PartialEq, Eq, Structural)]
pub struct Xyz {
    pub x: u32,
    pub y: u32,
    pub z: u32,
}

/// A colour in CIE Lab under the D50 white point. The lightness `l` lies
/// between zero and one hundred; `a` and `b` are not bounded.
#[derive(Debug, Clone, Copy, PartialEq, Eq, Structural)]
pub struct Lab {
    pub l: u32,
    pub a: u32,
    pub b: u32,
}

/// A colour in gamma-encoded sRGB. Every channel lies between zero and one.
#[derive(Debug, Clone, Copy, PartialEq, Eq, Structural)]
pub struct Srgb {
    pub r: u32,
    pub g: u32,
    pub b: u32,
}

/// A colour in HSV. The hue `h` lies in one turn, from zero up to but not
/// including 360; the saturation `s` and the value `v` lie between zero and
/// one.
#[derive(Debug, Clone, Copy, PartialEq, Eq, Structural)]
pub struct Hsv {
    pub h: u32,
    pub s: u32,
    pub v: u32,
}

/// A colour in one of the four spaces.
#[derive(Debug, Clone, Copy, PartialEq, Eq, Structural)]
pub enum ColorSpace {
    Xyz(Xyz),
    Lab(Lab),
    Srgb(Srgb),
    Hsv(Hsv),
}

impl Xyz {
    /// The colour with these coordinates, as they are.
    pub fn new(x: u32, y: u32, z: u32) -> (c: Xyz)
        ensures
            c == (Xyz { x, y, z }),
    {
        Xyz { x, y, z }
    }
}

impl Lab {
    /// The lightness is within its bounds.
    pub open spec fn wf(&self) -> bool {
        is_within(self.l, ZERO, HUNDRED)
    }

    /// The colour with these coordinates, the lightness kept between zero and
    /// one hundred.
    pub fn new(l: u32, a: u32, b: u32) -> (c: Lab)
        ensures
            c == (Lab { l: clamped(l, ZERO, HUNDRED), a, b }),
            c.wf(),
            (Lab { l, a, b }).wf() ==> c == (Lab { l, a, b }),
    {
        Lab { l: clamp(l, ZERO, HUNDRED), a, b }
    }
}

impl Srgb {
    /// Every channel is within its bounds.
    pub open spec fn wf(&self) -> bool {
        &&& is_within(self.r, ZERO, ONE)
        &&& is_within(self.g, ZERO, ONE)
        &&& is_within(self.b, ZERO, ONE)
    }

    /// The colour with these channels, each kept between zero and one.
    pub fn new(r: u32, g: u32, b: u32) -> (c: Srgb)
        ensures
            c == (Srgb { r: clamped(r, ZERO, ONE), g: clamped(g, ZERO, ONE), b: clamped(b, ZERO, ONE) }),
            c.wf(),
            (Srgb { r, g, b }).wf() ==> c == (Srgb { r, g, b }),
    {
        Srgb { r: clamp(r, ZERO, ONE), g: clamp(g, ZERO, ONE), b: clamp(b, ZERO, ONE) }
    }
}

impl Hsv {
    /// The hue lies in one turn, and the saturation and the value are within
    /// their bounds.
    pub open spec fn wf(&self) -> bool {
        &&& is_nan(self.h) || self.h < THREE_SIXTY
        &&& is_within(self.s, ZERO, ONE)
        &&& is_within(self.v, ZERO, ONE)
    }

    /// The colour with this hue wrapped into one turn, and this saturation
    /// and value, each kept between zero and one.
    pub fn new(h: u32, s: u32, v: u32) -> (c: Hsv)
        ensures
            is_turned(h, c.h),
            c.s == clamped(s, ZERO, ONE),
            c.v == clamped(v, ZERO, ONE),
            c.wf(),
            (Hsv { h, s, v }).wf() && !is_nan(h) ==> c == (Hsv { h, s, v }),
    {
        let turned = turn_hue(h);
        proof {
            if h < THREE_SIXTY {
                lemma_units_grow(h, THREE_SIXTY);
                vstd::arithmetic::div_mod::lemma_small_mod(units(h), units(THREE_SIXTY));
                if turned < h {
                    lemma_units_grow(turned, h);
                } else if h < turned {
                    lemma_units_grow(h, turned);
                }
            }
        }
        Hsv { h: turned, s: clamp(s, ZERO, ONE), v: clamp(v, ZERO, ONE) }
    }
}

impl From<Hsv> for ColorSpace {
    fn from(hsv: Hsv) -> (c: ColorSpace) {
        ColorSpace::Hsv(hsv)
    }
}

impl vstd::std_specs::convert::FromSpecImpl<Hsv> for ColorSpace {
    open spec fn obeys_from_spec() -> bool {
        true
    }

    open spec fn from_spec(hsv: Hsv) -> ColorSpace {
        ColorSpace::Hsv(hsv)
    }
}

impl From<Xyz> for ColorSpace {
    fn from(xyz: Xyz) -> (c: ColorSpace) {
        ColorSpace::Xyz(xyz)
    }
}

impl vstd::std_specs::convert::FromSpecImpl<Xyz> for ColorSpace {
    open spec fn obeys_from_spec() -> bool {
        true
    }

    open spec fn from_spec(xyz: Xyz) -> ColorSpace {
        ColorSpace::Xyz(xyz)
    }
}

impl From<Lab> for ColorSpace {
    fn from(lab: Lab) -> (c: ColorSpace) {
        ColorSpace::Lab(lab)
    }
}

impl vstd::std_specs::convert::FromSpecImpl<Lab> for ColorSpace {
    open spec fn obeys_from_spec() -> bool {
        true
    }

    open spec fn from_spec(lab: Lab) -> ColorSpace {
        ColorSpace::Lab(lab)
    }
}

impl From<Srgb> for ColorSpace {
    fn from(srgb: Srgb) -> (c: ColorSpace) {
        ColorSpace::Srgb(srgb)
    }
}

impl vstd::std_specs::convert::FromSpecImpl<Srgb> for ColorSpace {
    open spec fn obeys_from_spec() -> bool {
        true
    }

    open spec fn from_spec(srgb: Srgb) -> ColorSpace {
        ColorSpace::Srgb(srgb)
    }
}

/// The bit pattern of two.
pub const TWO: u32 = 0x4000_0000;

/// The bit pattern of three.
pub const THREE: u32 = 0x4040_0000;

/// The bit pattern of four.
pub const FOUR: u32 = 0x4080_0000;

/// The bit pattern of five.
pub const FIVE: u32 = 0x40A0_0000;

/// The bit pattern of the bound below which a colour counts as grey: one part
/// in 1024.
pub const COLOR_EPSILON: u32 = 0x3A80_0000;

/// The bit pattern of the bound below which a colour counts as black: the
/// distance from one to the next number above it, two to the power of -23.
pub const DARK_EPSILON: u32 = 0x3400_0000;

/// The greater of two: the other one where one is no number, `b` where `a`
/// is less, and `a` otherwise.
pub open spec fn greater_of(a: u32, b: u32) -> u32 {
    if is_nan(a) || is_less(a, b) {
        b
    } else {
        a
    }
}

/// The lesser of two: the other one where one is no number, `b` where `b` is
/// less, and `a` otherwise.
pub open spec fn lesser_of(a: u32, b: u32) -> u32 {
    if is_nan(a) || is_less(b, a) {
        b
    } else {
        a
    }
}

/// The greatest channel of a colour.
pub fn greatest(r: u32, g: u32, b: u32) -> (max: u32)
    ensures
        max == greater_of(greater_of(r, g), b),
        max == r || max == g || max == b,
        !is_less(max, r) && !is_less(max, g) && !is_less(max, b),
{
    let first = if nan(r) || less(r, g) {
        g
    } else {
        r
    };
    if nan(first) || less(first, b) {
        b
    } else {
        first
    }
}

/// The least channel of a colour.
pub fn least(r: u32, g: u32, b: u32) -> (min: u32)
    ensures
        min == lesser_of(lesser_of(r, g), b),
        min == r || min == g || min == b,
        !is_less(r, min) && !is_less(g, min) && !is_less(b, min),
{
    let first = if nan(r) || less(g, r) {
        g
    } else {
        r
    };
    if nan(first) || less(b, first) {
        b
    } else {
        first
    }
}

/// Whether a colour whose greatest channel is `max` is black, so that its
/// saturation is zero and nothing is divided by `max`.
pub fn is_black(max: u32) -> (r: bool)
    ensures
        r == is_less(max, DARK_EPSILON),
{
    less(max, DARK_EPSILON)
}

/// The sixth of the colour circle that a hue is computed in.
#[derive(Debug, Clone, Copy, PartialEq, Eq, Structural)]
pub enum HueSector {
    /// The colour is grey: its hue is zero.
    Achromatic,
    /// Red is the greatest channel.
    Red,
    /// Green is the greatest channel, and red is not.
    Green,
    /// Blue alone is the greatest channel.
    Blue,
}

/// The sector of a colour with the channels `r` and `g`, the greatest channel
/// `max`, the spread `delta` between its greatest and its least channel, and
/// the saturation `s`: none where the spread or the saturation is below one
/// part in 1024; otherwise that of the first channel, in the order red,
/// green, blue, that equals the greatest.
pub open spec fn sector_of(max: u32, r: u32, g: u32, delta: u32, s: u32) -> HueSector {
    if is_less(delta, COLOR_EPSILON) || is_less(s, COLOR_EPSILON) {
        HueSector::Achromatic
    } else if is_equal(max, r) {
        HueSector::Red
    } else if is_equal(max, g) {
        HueSector::Green
    } else {
        HueSector::Blue
    }
}

/// Decides by which formula the hue of a colour is computed.
pub fn hue_sector(max: u32, r: u32, g: u32, delta: u32, s: u32) -> (sector: HueSector)
    ensures
        sector == sector_of(max, r, g, delta, s),
{
    if less(delta, COLOR_EPSILON) || less(s, COLOR_EPSILON) {
        HueSector::Achromatic
    } else if equal(max, r) {
        HueSector::Red
    } else if equal(max, g) {
        HueSector::Green
    } else {
        HueSector::Blue
    }
}

/// The channels red, green and blue, before the lightness is added, of a
/// colour with the chroma `c`, the second largest component `x`, and the hue
/// `sixths`, counted in sixths of the circle: below one `(c, x, 0)`, below
/// two `(x, c, 0)`, below three `(0, c, x)`, below four `(0, x, c)`, below
/// five `(x, 0, c)`, and `(c, 0, x)` for every other hue.
pub open spec fn arranged(sixths: u32, c: u32, x: u32) -> (u32, u32, u32) {
    if is_less(sixths, ONE) {
        (c, x, ZERO)
    } else if is_less(sixths, TWO) {
        (x, c, ZERO)
    } else if is_less(sixths, THREE) {
        (ZERO, c, x)
    } else if is_less(sixths, FOUR) {
        (ZERO, x, c)
    } else if is_less(sixths, FIVE) {
        (x, ZERO, c)
    } else {
        (c, ZERO, x)
    }
}

/// Puts the chroma and the second largest component of a colour on its
/// channels, by the sixth of the circle that its hue lies in.
pub fn arrange(sixths: u32, c: u32, x: u32) -> (channels: (u32, u32, u32))
    ensures
        channels == arranged(sixths, c, x),
{
    if less(sixths, ONE) {
        (c, x, ZERO)
    } else if less(sixths, TWO) {
        (x, c, ZERO)
    } else if less(sixths, THREE) {
        (ZERO, c, x)
    } else if less(sixths, FOUR) {
        (ZERO, x, c)
    } else if less(sixths, FIVE) {
        (x, ZERO, c)
    } else {
        (c, ZERO, x)
    }
}

/// The bit pattern of the bound between the two pieces of the lightness
/// curve: the cube of 6/29.
pub const LAB_EPSILON: u32 = 0x3C11_1AA7;

/// The bit pattern of 0.0031308, the greatest linear channel that is encoded
/// by the straight piece of the sRGB curve.
pub const LINEAR_KNEE: u32 = 0x3B4D_2E1C;

/// The bit pattern of 0.040449936, the greatest encoded channel that is
/// decoded by the straight piece of the sRGB curve.
pub const GAMMA_KNEE: u32 = 0x3D25_AED5;

/// The piece of a curve that is defined in two pieces.
#[derive(Debug, Clone, Copy, PartialEq, Eq, Structural)]
pub enum Piece {
    /// The straight piece near zero.
    Straight,
    /// The piece that follows a power.
    Power,
}

/// The piece of the lightness curve that `t` lies on: the power where `t` is
/// greater than the cube of 6/29, and the straight piece otherwise.
pub fn lab_piece(t: u32) -> (piece: Piece)
    ensures
        piece == (if is_less(LAB_EPSILON, t) {
            Piece::Power
        } else {
            Piece::Straight
        }),
{
    if less(LAB_EPSILON, t) {
        Piece::Power
    } else {
        Piece::Straight
    }
}

/// The piece of the sRGB curve that encodes the linear channel `linear`: the
/// straight piece up to and including 0.0031308, and the power above it and
/// for what is no number.
pub fn encoding_piece(linear: u32) -> (piece: Piece)
    ensures
        piece == (if is_less(linear, LINEAR_KNEE) || is_equal(linear, LINEAR_KNEE) {
            Piece::Straight
        } else {
            Piece::Power
        }),
{
    if less(linear, LINEAR_KNEE) || equal(linear, LINEAR_KNEE) {
        Piece::Straight
    } else {
        Piece::Power
    }
}

/// The piece of the sRGB curve that decodes the encoded channel `gamma`: the
/// straight piece up to and including 0.040449936, and the power above it and
/// for what is no number.
pub fn decoding_piece(gamma: u32) -> (piece: Piece)
    ensures
        piece == (if is_less(gamma, GAMMA_KNEE) || is_equal(gamma, GAMMA_KNEE) {
            Piece::Straight
        } else {
            Piece::Power
        }),
{
    if less(gamma, GAMMA_KNEE) || equal(gamma, GAMMA_KNEE) {
        Piece::Straight
    } else {
        Piece::Power
    }
}

/// The D50 white point in CIE XYZ: 0.964212, 1 and 0.825188.
pub const D50_WHITE: [u32; 3] = [0x3F76_D699, 0x3F80_0000, 0x3F53_3F85];

/// The Bradford matrix that adapts a colour from the D50 to the D65 white
/// point, row by row.
pub const BRADFORD_D50_TO_D65: [[u32; 3]; 3] = [
    [0x3F74_A0AB, 0xBCBC_BCEA, 0x3D81_5BEB],
    [0xBCE7_BF62, 0x3F81_45C4, 0x3CAC_1857],
    [0x3C49_7E64, 0xBCA7_CBF7, 0x3FAA_3A7C],
];

/// The Bradford matrix that adapts a colour from the D65 to the D50 white
/// point, row by row.
pub const BRADFORD_D65_TO_D50: [[u32; 3]; 3] = [
    [0x3F86_1EAD, 0x3CBB_7CAE, 0xBD4D_51F8],
    [0x3CF2_02E7, 0x3F7D_9063, 0xBC8B_AA8E],
    [0xBC17_4C4D, 0x3C76_796F, 0x3F40_8BB2],
];

/// The matrix from CIE XYZ under D65 to linear sRGB, row by row.
pub const XYZ_D65_TO_LINEAR_SRGB: [[u32; 3]; 3] = [
    [0x404F_639A, 0xBFC4_C0F4, 0xBEFF_3F82],
    [0xBF78_21D1, 0x3FF0_211F, 0x3D2A_36A0],
    [0x3D63_EA55, 0xBE50_EC2A, 0x3F87_5328],
];

/// The matrix from linear sRGB to CIE XYZ under D65, row by row.
pub const LINEAR_SRGB_TO_XYZ_D65: [[u32; 3]; 3] = [
    [0x3ED3_2D7C, 0x3EB7_1437, 0x3E38_C49C],
    [0x3E59_C6ED, 0x3F37_1437, 0x3D93_D07D],
    [0x3C9E_6221, 0x3DF4_1AEF, 0x3F73_4721],
];

} // verus!
