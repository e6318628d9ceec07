//! Iteration count to colour: a fixed-saturation HSV transform followed by a
//! cyclic channel blend.

use vstd::prelude::*;

verus! {

/// An 8-bit RGB triple.
pub type ColorRgb = (u8, u8, u8);

/// The blend ratio `k = num / den` of the channel mix, with `0 <= k <= 1`.
#[derive(Clone, Copy, Debug, PartialEq, Eq, Structural)]
pub struct MixRatio {
    pub num: u32,
    pub den: u32,
}

impl MixRatio {
    pub open spec fn wf(self) -> bool {
        0 < self.den && self.num <= self.den
    }

    /// The ratio `num / den`, or `None` where that is not within `[0, 1]`.
    pub fn new(num: u32, den: u32) -> (r: Option<MixRatio>)
        ensures
            r is Some <==> (0 < den && num <= den),
            r matches Some(m) ==> m.num == num && m.den == den && m.wf(),
    {
        if 0 < den && num <= den {
            Some(MixRatio { num, den })
        } else {
            None
        }
    }
}

/// Level of the dominant channel: `trunc(255 * C)` with `C = S * V = 1/2`.
pub open spec fn primary_level() -> int {
    255int / 2
}

/// Level of the rising or falling channel of hue `h`:
/// `trunc(255 * X)` with `X = C * (1 - |((h / 60) mod 2) - 1|)` and `C = 1/2`,
/// which is `(60 - |(h mod 120) - 60|) / 120` exactly. The level is the exact value
/// of this formula, truncated; an evaluation in `f64` can land just below a whole
/// number and truncate to one less (hue 8 gives 17 here).
pub open spec fn secondary_level(h: int) -> int {
    let r = h % 120;
    let d = if r >= 60 { 120 - r } else { r };
    (255 * d) / 120
}

/// HSV to RGB at saturation 1 and value 1/2, before the channel mix.
/// The hue selects one of six 60-degree sectors, each closed below and open above.
pub open spec fn hsv_base_spec(h: int) -> ColorRgb {
    let p = primary_level() as u8;
    let x = secondary_level(h) as u8;
    if h < 60 {
        (p, x, 0)
    } else if h < 120 {
        (x, p, 0)
    } else if h < 180 {
        (0, p, x)
    } else if h < 240 {
        (0, x, p)
    } else if h < 300 {
        (x, 0, p)
    } else {
        (p, 0, x)
    }
}

/// `trunc(k * a + (1 - k) * b)` for `k = m.num / m.den`.
pub open spec fn blend(a: int, b: int, m: MixRatio) -> int {
    (m.num * a + (m.den - m.num) * b) / (m.den as int)
}

/// The cyclic channel bleed: red takes from green, green from blue, blue from red.
pub open spec fn channel_mix_spec(c: ColorRgb, m: MixRatio) -> ColorRgb {
    (
        blend(c.0 as int, c.1 as int, m) as u8,
        blend(c.1 as int, c.2 as int, m) as u8,
        blend(c.2 as int, c.0 as int, m) as u8,
    )
}

/// The colour of hue `h` in `[0, 360)`.
pub open spec fn hsv_to_rgb_spec(h: int, m: MixRatio) -> ColorRgb {
    channel_mix_spec(hsv_base_spec(h), m)
}

/// HSV to RGB at saturation 1 and value 1/2, before the channel mix, in exact
/// integer arithmetic: each level is the truncation of the exact value, not of an
/// `f64` evaluation of the formula.
pub fn hsv_base(hue: u16) -> (r: ColorRgb)
    requires
        hue < 360,
    ensures
        r == hsv_base_spec(hue as int),
{
    let rem: u16 = hue % 120;
    let d: u16 = if rem >= 60 { 120 - rem } else { rem };
    let p: u8 = 127;
    let x: u8 = ((255 * d as u32) / 120) as u8;
    if hue < 60 {
        (p, x, 0)
    } else if hue < 120 {
        (x, p, 0)
    } else if hue < 180 {
        (0, p, x)
    } else if hue < 240 {
        (0, x, p)
    } else if hue < 300 {
        (x, 0, p)
    } else {
        (p, 0, x)
    }
}

fn blend_channel(a: u8, b: u8, m: MixRatio) -> (r: u8)
    requires
        m.wf(),
    ensures
        r as int == blend(a as int, b as int, m),
{
    let n = m.num as u64;
    let d = m.den as u64;
    proof {
        assert(n * (a as u64) <= n * 255) by (nonlinear_arith)
            requires a <= 255;
        assert((d - n) * (b as u64) <= (d - n) * 255) by (nonlinear_arith)
            requires b <= 255, n <= d;
        assert(n * 255 + (d - n) * 255 == d * 255) by (nonlinear_arith);
        assert(d * 255 <= 0xffff_ffff * 255) by (nonlinear_arith)
            requires d <= 0xffff_ffff;
    }
    let sum: u64 = n * (a as u64) + (d - n) * (b as u64);
    proof {
        assert(sum / d <= 255) by (nonlinear_arith)
            requires sum <= d * 255, d > 0;
    }
    (sum / d) as u8
}

/// The cyclic channel bleed with ratio `m`, each channel truncated after the blend.
pub fn channel_mix(c: ColorRgb, m: MixRatio) -> (r: ColorRgb)
    requires
        m.wf(),
    ensures
        r == channel_mix_spec(c, m),
{
    (blend_channel(c.0, c.1, m), blend_channel(c.1, c.2, m), blend_channel(c.2, c.0, m))
}

/// HSV to RGB at saturation 1 and value 1/2, then the channel mix.
pub fn hsv_to_rgb(hue: u16, m: MixRatio) -> (r: ColorRgb)
    requires
        hue < 360,
        m.wf(),
    ensures
        r == hsv_to_rgb_spec(hue as int, m),
{
    channel_mix(hsv_base(hue), m)
}

/// The colour of divergence index `i`: its hue is `i mod 360`.
pub fn rgb_convert(i: u16, m: MixRatio) -> (r: ColorRgb)
    requires
        m.wf(),
    ensures
        r == hsv_to_rgb_spec(i as int % 360, m),
{
    hsv_to_rgb(i % 360, m)
}

/// With ratio 1 the channel mix leaves a colour as it is; with ratio 0 it rotates
/// the channels, red taking green's value, green blue's and blue red's.
pub proof fn lemma_channel_mix_extremes(c: ColorRgb, m: MixRatio)
    requires
        m.wf(),
    ensures
        m.num == m.den ==> channel_mix_spec(c, m) == c,
        m.num == 0 ==> channel_mix_spec(c, m) == (c.1, c.2, c.0),
{
    let d = m.den as int;
    assert forall|a: int, b: int| m.num == m.den implies #[trigger] blend(a, b, m) == a by {
        assert((d * a + (d - d) * b) / d == a) by (nonlinear_arith)
            requires d > 0;
    }
    assert forall|a: int, b: int| m.num == 0 implies #[trigger] blend(a, b, m) == b by {
        assert((0 * a + (d - 0) * b) / d == b) by (nonlinear_arith)
            requires d > 0;
    }
}

} // verus!
