//! Per-app accent colour, taken from the app's own icon.
//!
//! There is no cover art to be had, so a card is washed in the hue of its icon.
//! The averaging itself is done on single precision numbers outside this
//! library: hues are summed as unit vectors on a circle, because averaging them
//! as numbers turns two reds into cyan. Which pixels count, and what becomes of
//! the sums, is decided here.

use crate::num::{Num, HALF_BITS, ONE_BITS, ZERO_BITS};
use vstd::prelude::*;

verus! {

/// 0.12, 0.92 and 0.15: outside these lightnesses, or below this saturation, a
/// pixel carries no hue worth having.
pub const DARKEST_BITS: u32 = 0x3df5_c28f;

pub const LIGHTEST_BITS: u32 = 0x3f6b_851f;

pub const PALEST_BITS: u32 = 0x3e19_999a;

/// 0.62, the hue of the neutral tint.
pub const NEUTRAL_HUE_BITS: u32 = 0x3f1e_b852;

/// 0.30, the lightness behind text.
pub const WASH_LIGHT_BITS: u32 = 0x3e99_999a;

/// 0.35 and 0.85, the saturations an accent stays between, and 0.62, its
/// lightness.
pub const ACCENT_LEAST_BITS: u32 = 0x3eb3_3333;

pub const ACCENT_MOST_BITS: u32 = 0x3f59_999a;

pub const ACCENT_LIGHT_BITS: u32 = 0x3f1e_b852;

/// A colour taken from an icon, already shaped for use behind content.
#[derive(Clone, Copy, Debug, PartialEq, Eq, Structural)]
pub struct Tint {
    pub hue: Num,
    pub sat: Num,
}

/// A colour as hue, saturation, lightness and opacity.
#[derive(Clone, Copy, Debug, PartialEq, Eq, Structural)]
pub struct Shade {
    pub h: Num,
    pub s: Num,
    pub l: Num,
    pub a: Num,
}

/// One pixel of an icon.
#[derive(Clone, Copy, Debug, PartialEq, Eq, Structural)]
pub struct Pixel {
    pub r: u8,
    pub g: u8,
    pub b: u8,
    pub a: u8,
}

/// The pixels of an encoded image, four bytes each, or nothing where the bytes
/// are no image that can be read.
pub uninterp spec fn decoded(bytes: Seq<u8>) -> Option<Seq<u8>>;

/// `image::load_from_memory`, then `DynamicImage::to_rgba8`: the red, green,
/// blue and opacity bytes of an encoded image. No decoding hook is installed, so
/// they depend on the bytes alone; what they are for given bytes is not said
/// here.
#[verifier::external_body]
fn load_from_memory(bytes: &Vec<u8>) -> (r: Option<Vec<u8>>)
    ensures
        match r {
            Some(px) => decoded(bytes@) == Some(px@),
            None => decoded(bytes@) is None,
        },
{
    match image::load_from_memory(bytes.as_slice()) {
        Ok(img) => Some(img.to_rgba8().into_raw()),
        Err(_) => None,
    }
}

/// The pixel whose bytes start at `at`. Only a pixel of four bytes carries its
/// opacity; any other is opaque.
pub open spec fn pixel_at(px: Seq<u8>, stride: int, at: int) -> Pixel {
    Pixel {
        r: px[at],
        g: px[at + 1],
        b: px[at + 2],
        a: if stride == 4 {
            px[at + 3]
        } else {
            255
        },
    }
}

/// The whole pixels of `stride` bytes from `at` on; a rest is left out.
pub open spec fn pixels_from(px: Seq<u8>, stride: int, at: int) -> Seq<Pixel>
    decreases px.len() - at,
{
    if stride <= 0 || at + stride > px.len() {
        Seq::empty()
    } else {
        seq![pixel_at(px, stride, at)] + pixels_from(px, stride, at + stride)
    }
}

/// The pixels of raw image bytes; `stride` is the bytes per pixel.
pub fn pixels_of(px: &Vec<u8>, stride: usize) -> (r: Vec<Pixel>)
    requires
        stride > 0,
        stride >= 3 || px@.len() < stride,
    ensures
        r@ == pixels_from(px@, stride as int, 0),
{
    let total: usize = px.len();
    let mut out: Vec<Pixel> = Vec::new();
    let mut at: usize = 0;
    while stride <= total - at
        invariant
            at <= total,
            total == px@.len(),
            stride > 0,
            stride >= 3 || px@.len() < stride,
            out@ + pixels_from(px@, stride as int, at as int) == pixels_from(
                px@,
                stride as int,
                0,
            ),
        decreases total - at,
    {
        let a: u8 = if stride == 4 {
            px[at + 3]
        } else {
            255
        };
        let p = Pixel { r: px[at], g: px[at + 1], b: px[at + 2], a };
        let ghost before = out@;
        let ghost rest = pixels_from(px@, stride as int, at + stride);
        assert(p == pixel_at(px@, stride as int, at as int));
        out.push(p);
        assert(before + (seq![p] + rest) =~= out@ + rest);
        at = at + stride;
    }
    assert(out@ + Seq::<Pixel>::empty() =~= out@);
    out
}

/// The pixels of an encoded icon. An icon that cannot be read has none, and so
/// stays neutral.
pub fn from_bytes(bytes: &Vec<u8>) -> (r: Vec<Pixel>)
    ensures
        r@ == match decoded(bytes@) {
            Some(px) => pixels_from(px, 4, 0),
            None => Seq::empty(),
        },
{
    match load_from_memory(bytes) {
        Some(px) => pixels_of(&px, 4),
        None => Vec::new(),
    }
}

/// The fallback for icons with no usable colour.
pub open spec fn neutral_tint() -> Tint {
    Tint { hue: Num { bits: NEUTRAL_HUE_BITS }, sat: Num { bits: ZERO_BITS } }
}

/// Whether a pixel of this opacity, lightness and saturation counts.
pub open spec fn pixel_counts(alpha: Num, light: Num, sat: Num) -> bool {
    &&& !alpha.lt(Num { bits: HALF_BITS })
    &&& (Num { bits: DARKEST_BITS }).le(light)
    &&& light.le(Num { bits: LIGHTEST_BITS })
    &&& !sat.lt(Num { bits: PALEST_BITS })
}

/// Whether a pixel counts.
///
/// Transparent corners are most of an app icon; counting them drags every tint
/// toward the same grey. Near-black and near-white carry no hue, and icons are
/// full of both.
pub fn counts(alpha: Num, light: Num, sat: Num) -> (r: bool)
    ensures
        r == pixel_counts(alpha, light, sat),
{
    !alpha.less(Num::of(HALF_BITS)) && Num::of(DARKEST_BITS).at_most(light) && light.at_most(
        Num::of(LIGHTEST_BITS),
    ) && !sat.less(Num::of(PALEST_BITS))
}

/// What the sums over an icon come to. `weight` is the sum of the weights,
/// `turn` the angle of the summed vectors in turns, `wrapped` that angle plus
/// one, and `sat` the weighted saturation.
pub open spec fn settled(weight: Num, turn: Num, wrapped: Num, sat: Num) -> Tint {
    let zero = Num { bits: ZERO_BITS };
    if weight.le(zero) {
        neutral_tint()
    } else {
        Tint {
            hue: if turn.lt(zero) {
                wrapped
            } else {
                turn
            },
            sat: sat.clamp_spec(zero, Num { bits: ONE_BITS }),
        }
    }
}

impl Tint {
    /// The fallback for icons with no usable colour.
    pub fn neutral() -> (r: Tint)
        ensures
            r == neutral_tint(),
    {
        Tint { hue: Num::of(NEUTRAL_HUE_BITS), sat: Num::of(ZERO_BITS) }
    }

    /// The tint the sums over an icon come to. An icon without a pixel that
    /// counts stays neutral rather than being given a hue: a wrong colour is
    /// worse than none.
    pub fn settle(weight: Num, turn: Num, wrapped: Num, sat: Num) -> (r: Tint)
        ensures
            r == settled(weight, turn, wrapped, sat),
    {
        let zero: Num = Num::of(ZERO_BITS);
        let one: Num = Num::of(ONE_BITS);
        if weight.at_most(zero) {
            return Tint::neutral();
        }
        let hue: Num = if turn.less(zero) {
            wrapped
        } else {
            turn
        };
        Tint {
            hue,
            sat: if sat.less(zero) {
                zero
            } else if one.less(sat) {
                one
            } else {
                sat
            },
        }
    }

    /// Backdrop wash, kept dark and desaturated: it sits behind text. `scaled`
    /// is the tint's saturation times 0.55.
    pub fn wash(self, scaled: Num, alpha: Num) -> (r: Shade)
        ensures
            r.h == self.hue,
            r.s == (if scaled.lt(Num { bits: HALF_BITS }) {
                scaled
            } else {
                Num { bits: HALF_BITS }
            }),
            r.l == (Num { bits: WASH_LIGHT_BITS }),
            r.a == alpha,
    {
        let most: Num = Num::of(HALF_BITS);
        Shade {
            h: self.hue,
            s: if scaled.less(most) {
                scaled
            } else {
                most
            },
            l: Num::of(WASH_LIGHT_BITS),
            a: alpha,
        }
    }

    /// Foreground use: bright enough to register. `scaled` is the tint's
    /// saturation times 0.9.
    pub fn accent(self, scaled: Num) -> (r: Shade)
        ensures
            r.h == self.hue,
            r.s == scaled.clamp_spec(
                Num { bits: ACCENT_LEAST_BITS },
                Num { bits: ACCENT_MOST_BITS },
            ),
            r.l == (Num { bits: ACCENT_LIGHT_BITS }),
            r.a == (Num { bits: ONE_BITS }),
    {
        let least: Num = Num::of(ACCENT_LEAST_BITS);
        let most: Num = Num::of(ACCENT_MOST_BITS);
        Shade {
            h: self.hue,
            s: if scaled.less(least) {
                least
            } else if most.less(scaled) {
                most
            } else {
                scaled
            },
            l: Num::of(ACCENT_LIGHT_BITS),
            a: Num::of(ONE_BITS),
        }
    }
}

/// A picture has one pixel for every whole stride of its bytes, in their order: red,
/// green and blue as they stand, and alpha where there is a fourth byte; without one a
/// pixel is opaque.
pub proof fn law_every_stride_is_a_pixel(px: Seq<u8>, stride: int, at: int, k: int)
    requires
        stride > 0,
        0 <= at <= px.len(),
    ensures
        pixels_from(px, stride, at).len() == (px.len() - at) / stride,
        0 <= k < (px.len() - at) / stride ==> {
            let p = pixels_from(px, stride, at)[k];
            &&& p.r == px[at + k * stride]
            &&& p.g == px[at + k * stride + 1]
            &&& p.b == px[at + k * stride + 2]
            &&& stride == 4 ==> p.a == px[at + k * stride + 3]
            &&& stride != 4 ==> p.a == 255
        },
    decreases px.len() - at,
{
    let left = px.len() - at;
    if at + stride > px.len() {
        assert(left / stride == 0) by (nonlinear_arith)
            requires
                0 <= left < stride,
        ;
    } else {
        law_every_stride_is_a_pixel(px, stride, at + stride, k - 1);
        assert(left / stride == (left - stride) / stride + 1) by (nonlinear_arith)
            requires
                0 < stride <= left,
        ;
        assert((k - 1) * stride + stride == k * stride) by (nonlinear_arith);
        assert((left - stride) / stride >= 0) by (nonlinear_arith)
            requires
                0 < stride <= left,
        ;
        if 0 < k < left / stride {
            assert(pixels_from(px, stride, at)[k] == pixels_from(px, stride, at + stride)[k - 1]);
        }
    }
}

/// A pixel counts exactly if it is at least half opaque, neither too dark nor too light,
/// and has some colour; what is no number is never dark or light enough.
pub proof fn law_only_a_coloured_pixel_counts(alpha: Num, light: Num, sat: Num)
    ensures
        alpha.lt(Num { bits: 0x3f00_0000 }) ==> !pixel_counts(alpha, light, sat),
        light.lt(Num { bits: 0x3df5_c28f }) ==> !pixel_counts(alpha, light, sat),
        (Num { bits: 0x3f6b_851f }).lt(light) ==> !pixel_counts(alpha, light, sat),
        light.is_nan_spec() ==> !pixel_counts(alpha, light, sat),
        sat.lt(Num { bits: 0x3e19_999a }) ==> !pixel_counts(alpha, light, sat),
        !alpha.lt(Num { bits: 0x3f00_0000 }) && (Num { bits: 0x3df5_c28f }).le(light) && light.le(
            Num { bits: 0x3f6b_851f },
        ) && !sat.lt(Num { bits: 0x3e19_999a }) ==> pixel_counts(alpha, light, sat),
{
}

/// Without any weight a picture is neutral; otherwise the turn is brought above zero and
/// the saturation kept between zero and one.
pub proof fn law_a_tint_settles(weight: Num, turn: Num, around: Num, sat: Num)
    ensures
        ({
            let zero = Num { bits: 0 };
            let one = Num { bits: 0x3f80_0000 };
            let t = settled(weight, turn, around, sat);
            &&& weight.le(zero) ==> t == neutral_tint()
            &&& !weight.le(zero) && turn.lt(zero) ==> t.hue == around
            &&& !weight.le(zero) && !turn.lt(zero) ==> t.hue == turn
            &&& !weight.le(zero) && sat.lt(zero) ==> t.sat == zero
            &&& !weight.le(zero) && one.lt(sat) && !sat.lt(zero) ==> t.sat == one
            &&& !weight.le(zero) && !sat.lt(zero) && !one.lt(sat) ==> t.sat == sat
        }),
{
}

} // verus!
