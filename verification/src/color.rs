//! Colours: amounts of light in a red, a green and a blue channel.
//!
//! A colour is a vector of three fixed-point numbers, `x` for red, `y` for
//! green and `z` for blue. A channel is usually between 0 and 1 but is not
//! bound to that range: the samples of a pixel are added up before they are
//! averaged, and only the writer brings a channel into the eight bits of the
//! output.

use crate::fixed::{
    div_trunc, div_wide, fixed_mul, floor_sqrt, fx_mul, lemma_div_trunc, lemma_floor_sqrt_exists,
    lemma_whole_quotient, mul_wide, sqrt_floor, ONE,
};
use crate::ppm::Rgb;
use crate::vec3::{Vec3, V3};
use vstd::prelude::*;

verus! {

/// An amount of light.
pub type Color = Vec3;

/// Largest channel value that is written out: 0.999.
pub const SHADE_CAP: i64 = 4290672328;

/// A number brought into the range of an `i64`.
pub open spec fn saturate(v: int) -> int {
    if v < i64::MIN {
        i64::MIN as int
    } else if v > i64::MAX {
        i64::MAX as int
    } else {
        v
    }
}

/// The colour `b` seen through the tint `a`: the product, channel by channel.
pub open spec fn tinted(a: V3, b: V3) -> V3 {
    V3 {
        x: saturate(fx_mul(a.x, b.x)),
        y: saturate(fx_mul(a.y, b.y)),
        z: saturate(fx_mul(a.z, b.z)),
    }
}

/// The sum of the samples, channel by channel.
pub open spec fn total(samples: Seq<V3>) -> V3
    decreases samples.len(),
{
    if samples.len() == 0 {
        V3::zero()
    } else {
        total(samples.drop_last()).plus(samples.last())
    }
}

/// The arithmetic mean of the samples, channel by channel.
pub open spec fn average(samples: Seq<V3>) -> V3 {
    total(samples).shrink(samples.len() as int)
}

/// The colours that a sequence of vectors stands for.
pub open spec fn models(samples: Seq<Color>) -> Seq<V3> {
    samples.map_values(|c: Color| c@)
}

/// The tone curve: the square root of a channel, and 0 for a channel that
/// is not positive.
pub open spec fn gamma(channel: int) -> int {
    if channel <= 0 {
        0
    } else {
        floor_sqrt(channel * ONE)
    }
}

/// The eight bits that a channel is written with: the tone curve is applied,
/// the result is held to the range from 0 to 0.999, scaled by 256 and cut
/// off to a whole number.
pub open spec fn channel_byte(channel: int) -> int {
    let toned = gamma(channel);
    let held = if toned > SHADE_CAP {
        SHADE_CAP as int
    } else {
        toned
    };
    (256 * held) / (ONE as int)
}

/// The pixel that a colour is written as.
pub open spec fn quantized(c: V3) -> Rgb {
    Rgb { r: channel_byte(c.x) as u8, g: channel_byte(c.y) as u8, b: channel_byte(c.z) as u8 }
}

/// No light.
pub fn black() -> (c: Color)
    ensures
        c@ == V3::zero(),
{
    Vec3 { x: 0, y: 0, z: 0 }
}

fn tint_channel(a: i64, b: i64) -> (r: i64)
    ensures
        r == saturate(fx_mul(a as int, b as int)),
{
    let wide: i128 = fixed_mul(a, b);
    if wide < i64::MIN as i128 {
        i64::MIN
    } else if wide > i64::MAX as i128 {
        i64::MAX
    } else {
        wide as i64
    }
}

/// The colour `b` seen through the tint `a`.
pub fn tint(a: Color, b: Color) -> (c: Color)
    ensures
        c@ == tinted(a@, b@),
{
    Vec3 { x: tint_channel(a.x, b.x), y: tint_channel(a.y, b.y), z: tint_channel(a.z, b.z) }
}

/// The sum of a run of samples stays within the run's length times the range
/// of a channel, so the mean is a channel value again.
proof fn lemma_total_bounds(samples: Seq<Color>)
    ensures
        samples.len() * i64::MIN <= total(models(samples)).x <= samples.len() * i64::MAX,
        samples.len() * i64::MIN <= total(models(samples)).y <= samples.len() * i64::MAX,
        samples.len() * i64::MIN <= total(models(samples)).z <= samples.len() * i64::MAX,
    decreases samples.len(),
{
    let m = models(samples);
    if samples.len() > 0 {
        lemma_total_bounds(samples.drop_last());
        assert(models(samples.drop_last()) =~= m.drop_last());
    }
}

proof fn lemma_mean_in_range(sum: int, count: int)
    requires
        count >= 1,
        count * i64::MIN <= sum <= count * i64::MAX,
    ensures
        i64::MIN <= div_trunc(sum, count) <= i64::MAX,
{
    lemma_div_trunc(sum, count);
    let q = div_trunc(sum, count);
    if sum >= 0 {
        assert(q <= i64::MAX) by (nonlinear_arith)
            requires
                q * count <= sum,
                sum <= count * i64::MAX,
                count >= 1,
                q >= 0,
        ;
    } else {
        let m = -q;
        assert(m <= -(i64::MIN as int)) by (nonlinear_arith)
            requires
                m * count <= -sum,
                -sum <= count * (-(i64::MIN as int)),
                count >= 1,
                m >= 0,
        ;
    }
}

/// The arithmetic mean of the samples of a pixel: their sum divided by their
/// number, channel by channel.
pub fn mean_color(samples: &Vec<Color>) -> (mean: Color)
    requires
        samples@.len() >= 1,
    ensures
        mean@ == average(models(samples@)),
{
    let count: usize = samples.len();
    let mut r: i128 = 0;
    let mut g: i128 = 0;
    let mut b: i128 = 0;
    let mut i: usize = 0;
    while i < count
        invariant
            i <= count,
            count == samples@.len(),
            r == total(models(samples@.take(i as int))).x,
            g == total(models(samples@.take(i as int))).y,
            b == total(models(samples@.take(i as int))).z,
        decreases count - i,
    {
        proof {
            let next = samples@.take(i + 1);
            assert(models(next).drop_last() =~= models(samples@.take(i as int)));
            lemma_total_bounds(samples@.take(i as int));
            lemma_total_bounds(next);
            assert(i * i64::MIN >= usize::MAX * i64::MIN) by (nonlinear_arith)
                requires
                    0 <= i <= usize::MAX,
            ;
            assert(i * i64::MAX <= usize::MAX * i64::MAX) by (nonlinear_arith)
                requires
                    0 <= i <= usize::MAX,
            ;
        }
        let c = samples[i];
        r = r + c.x as i128;
        g = g + c.y as i128;
        b = b + c.z as i128;
        i += 1;
    }
    proof {
        assert(samples@.take(count as int) =~= samples@);
        lemma_total_bounds(samples@);
        lemma_mean_in_range(r as int, count as int);
        lemma_mean_in_range(g as int, count as int);
        lemma_mean_in_range(b as int, count as int);
    }
    Vec3 {
        x: div_wide(r, count as i128) as i64,
        y: div_wide(g, count as i128) as i64,
        z: div_wide(b, count as i128) as i64,
    }
}

/// The mean of samples that are all the same colour is that colour.
pub proof fn lemma_steady_mean(samples: Seq<V3>, c: V3)
    requires
        samples.len() >= 1,
        forall|i: int| 0 <= i < samples.len() ==> samples[i] == c,
    ensures
        average(samples) == c,
{
    lemma_steady_total(samples, c);
    let n = samples.len() as int;
    lemma_whole_quotient(c.x, n);
    lemma_whole_quotient(c.y, n);
    lemma_whole_quotient(c.z, n);
}

proof fn lemma_steady_total(samples: Seq<V3>, c: V3)
    requires
        forall|i: int| 0 <= i < samples.len() ==> samples[i] == c,
    ensures
        total(samples) == c.times(samples.len() as int),
    decreases samples.len(),
{
    if samples.len() > 0 {
        lemma_steady_total(samples.drop_last(), c);
        let n = samples.len() as int;
        assert(c.x * (n - 1) + c.x == c.x * n) by (nonlinear_arith);
        assert(c.y * (n - 1) + c.y == c.y * n) by (nonlinear_arith);
        assert(c.z * (n - 1) + c.z == c.z * n) by (nonlinear_arith);
    }
}

/// The eight bits that a channel is written with.
pub fn quantize_channel(channel: i64) -> (byte: u8)
    ensures
        byte == channel_byte(channel as int),
{
    if channel <= 0 {
        return 0;
    }
    let scaled: i128 = mul_wide(channel, ONE);
    let toned: u64 = sqrt_floor(scaled as u128);
    let held: u64 = if toned > SHADE_CAP as u64 {
        SHADE_CAP as u64
    } else {
        toned
    };
    ((256 * held as u128) / (ONE as u128)) as u8
}

/// The pixel that a colour is written as.
pub fn quantize(c: Color) -> (pixel: Rgb)
    ensures
        pixel == quantized(c@),
{
    Rgb { r: quantize_channel(c.x), g: quantize_channel(c.y), b: quantize_channel(c.z) }
}

/// A channel is written as 0 when it holds no light and as 255 when it holds
/// full light or more; a brighter channel is never written darker.
pub proof fn lemma_channel_byte(channel: int, brighter: int)
    requires
        channel <= brighter,
    ensures
        0 <= channel_byte(channel) <= 255,
        channel <= 0 ==> channel_byte(channel) == 0,
        channel >= ONE ==> channel_byte(channel) == 255,
        channel_byte(channel) <= channel_byte(brighter),
{
    lemma_gamma(channel, brighter);
    lemma_gamma(channel, channel);
    lemma_gamma(brighter, brighter);
}

proof fn lemma_gamma(channel: int, brighter: int)
    requires
        channel <= brighter,
    ensures
        0 <= gamma(channel) <= gamma(brighter),
        channel >= ONE ==> gamma(channel) >= ONE,
{
    if channel > 0 {
        let a = channel * ONE;
        let b = brighter * ONE;
        lemma_floor_sqrt_exists(a);
        lemma_floor_sqrt_exists(b);
        let ra = floor_sqrt(a);
        let rb = floor_sqrt(b);
        if ra > rb {
            assert((rb + 1) * (rb + 1) <= ra * ra) by (nonlinear_arith)
                requires
                    0 <= rb,
                    rb + 1 <= ra,
            ;
        }
        if channel >= ONE && ra < ONE {
            assert((ra + 1) * (ra + 1) <= ONE * ONE) by (nonlinear_arith)
                requires
                    0 <= ra,
                    ra + 1 <= ONE,
            ;
            assert(ONE * ONE <= channel * ONE) by (nonlinear_arith)
                requires
                    ONE <= channel,
            ;
        }
    } else if brighter > 0 {
        lemma_floor_sqrt_exists(brighter * ONE);
    }
}

} // verus!
