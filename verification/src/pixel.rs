//! Integer arithmetic shared by the pixel converters.

use vstd::prelude::*;

verus! {

/// A channel value limited to the range of a byte.
pub open spec fn clamp_u8(x: int) -> int {
    if x < 0 {
        0
    } else if x > 255 {
        255
    } else {
        x
    }
}

/// An arithmetic shift right by eight bits: the quotient by 256, rounded
/// towards minus infinity.
pub open spec fn shr8(x: int) -> int {
    x / 256
}

/// The coefficients of one YCbCr to RGB conversion, all scaled by 256.
pub struct YuvCoefficients {
    /// Subtracted from luma before scaling.
    pub y_offset: int,
    /// Luma scale.
    pub y_scale: int,
    /// Chroma scale, applied after the bias of 128 is removed.
    pub c_scale: int,
    /// Contribution of V to red.
    pub kr: int,
    /// Contribution of U to green.
    pub kg_u: int,
    /// Contribution of V to green.
    pub kg_v: int,
    /// Contribution of U to blue.
    pub kb: int,
}

/// Luma after range expansion.
pub open spec fn expand_luma(k: YuvCoefficients, y: int) -> int {
    shr8((y - k.y_offset) * k.y_scale)
}

/// Chroma after the bias is removed and the range expanded.
pub open spec fn expand_chroma(k: YuvCoefficients, c: int) -> int {
    shr8((c - 128) * k.c_scale)
}

/// One colour channel (0 red, 1 green, 2 blue) of a pixel with raw luma
/// `y` and raw chroma `u`, `v`.
pub open spec fn yuv_channel(k: YuvCoefficients, channel: int, y: int, u: int, v: int) -> int {
    let yy = expand_luma(k, y);
    let uu = expand_chroma(k, u);
    let vv = expand_chroma(k, v);
    if channel == 0 {
        clamp_u8(yy + shr8(k.kr * vv))
    } else if channel == 1 {
        clamp_u8(yy - shr8(k.kg_u * uu + k.kg_v * vv))
    } else {
        clamp_u8(yy + shr8(k.kb * uu))
    }
}

/// How many pixel pairs a YUYV conversion handles: bounded by the stated
/// pixel count and by what both buffers can hold.
pub open spec fn yuyv_pair_count(pixels: int, yuyv_len: int, rgb_len: int) -> int {
    let a = pixels / 2;
    let b = yuyv_len / 4;
    let c = rgb_len / 6;
    if a <= b && a <= c {
        a
    } else if b <= c {
        b
    } else {
        c
    }
}

/// Byte `j` of the RGB image that a YUYV buffer converts to. Four input
/// bytes `Y0 U Y1 V` give two pixels that share `U` and `V`.
pub open spec fn yuyv_rgb_byte(k: YuvCoefficients, yuyv: Seq<u8>, j: int) -> int {
    let pair = j / 6;
    let within = j % 6;
    let y = if within < 3 {
        yuyv[4 * pair]
    } else {
        yuyv[4 * pair + 2]
    };
    yuv_channel(k, within % 3, y as int, yuyv[4 * pair + 1] as int, yuyv[4 * pair + 3] as int)
}

/// What a YUYV conversion leaves in the RGB buffer: the first `6 * pairs`
/// bytes are converted pixels, the rest is untouched.
pub open spec fn yuyv_converted(
    k: YuvCoefficients,
    yuyv: Seq<u8>,
    before: Seq<u8>,
    after: Seq<u8>,
    pairs: int,
) -> bool {
    &&& after.len() == before.len()
    &&& forall|j: int| 0 <= j < 6 * pairs ==> #[trigger] after[j] as int == yuyv_rgb_byte(k, yuyv, j)
    &&& forall|j: int| 6 * pairs <= j < before.len() ==> #[trigger] after[j] == before[j]
}

/// Byte `j` of an image with channels 0 and 2 of every pixel exchanged.
pub open spec fn swapped_byte(src: Seq<u8>, j: int) -> u8 {
    src[3 * (j / 3) + (2 - j % 3)]
}

/// The value of `x >> 8` on a 32-bit signed integer.
pub proof fn lemma_shr8(x: i32)
    ensures
        (x >> 8) as int == shr8(x as int),
{
    assert(x >> 8 == x / 256) by (bit_vector);
}

/// Clamps to a byte.
pub fn clamp_to_u8(x: i32) -> (r: u8)
    ensures
        r as int == clamp_u8(x as int),
{
    if x < 0 {
        0
    } else if x > 255 {
        255
    } else {
        x as u8
    }
}

/// Executable coefficients; `view` gives the mathematical ones.
#[derive(Clone, Copy, Debug)]
pub struct Coefficients {
    pub y_offset: i32,
    pub y_scale: i32,
    pub c_scale: i32,
    pub kr: i32,
    pub kg_u: i32,
    pub kg_v: i32,
    pub kb: i32,
}

impl View for Coefficients {
    type V = YuvCoefficients;

    open spec fn view(&self) -> YuvCoefficients {
        YuvCoefficients {
            y_offset: self.y_offset as int,
            y_scale: self.y_scale as int,
            c_scale: self.c_scale as int,
            kr: self.kr as int,
            kg_u: self.kg_u as int,
            kg_v: self.kg_v as int,
            kb: self.kb as int,
        }
    }
}

impl Coefficients {
    /// Coefficients small enough that no intermediate value of a
    /// conversion leaves the 32-bit range.
    pub open spec fn bounded(&self) -> bool {
        &&& 0 <= self.y_offset <= 255
        &&& 0 <= self.y_scale <= 1024
        &&& 0 <= self.c_scale <= 1024
        &&& 0 <= self.kr <= 1024
        &&& 0 <= self.kg_u <= 1024
        &&& 0 <= self.kg_v <= 1024
        &&& 0 <= self.kb <= 1024
    }
}

/// The product of two bounded factors is bounded.
pub proof fn lemma_product_bound(a: int, b: int, la: int, lb: int)
    requires
        -la <= a <= la,
        0 <= b <= lb,
    ensures
        -(la * lb) <= a * b <= la * lb,
{
    assert(-(la * lb) <= a * b <= la * lb) by (nonlinear_arith)
        requires
            -la <= a <= la,
            0 <= b <= lb,
    ;
}

/// `(value - offset) * scale >> 8`, the step that expands a range.
fn scale_shift(value: i32, offset: i32, scale: i32) -> (r: i32)
    requires
        0 <= value <= 255,
        0 <= offset <= 255,
        0 <= scale <= 1024,
    ensures
        r as int == shr8((value - offset) * scale),
        -1024 <= r <= 1024,
{
    let d: i32 = value - offset;
    proof {
        lemma_product_bound(d as int, scale as int, 255, 1024);
    }
    let p: i32 = d * scale;
    proof {
        lemma_shr8(p);
    }
    p >> 8
}

/// `coefficient * value >> 8` for an expanded chroma value.
fn weigh(coefficient: i32, value: i32) -> (r: i32)
    requires
        0 <= coefficient <= 1024,
        -1024 <= value <= 1024,
    ensures
        r as int == shr8(coefficient * value),
        -4096 <= r <= 4096,
{
    proof {
        lemma_product_bound(value as int, coefficient as int, 1024, 1024);
        assert(coefficient * value == value * coefficient) by (nonlinear_arith);
    }
    let p: i32 = coefficient * value;
    proof {
        lemma_shr8(p);
    }
    p >> 8
}

/// `(cu * u + cv * v) >> 8`, the chroma term of the green channel.
fn weigh_pair(cu: i32, u: i32, cv: i32, v: i32) -> (r: i32)
    requires
        0 <= cu <= 1024,
        0 <= cv <= 1024,
        -1024 <= u <= 1024,
        -1024 <= v <= 1024,
    ensures
        r as int == shr8(cu * u + cv * v),
        -8192 <= r <= 8192,
{
    proof {
        lemma_product_bound(u as int, cu as int, 1024, 1024);
        lemma_product_bound(v as int, cv as int, 1024, 1024);
        assert(cu * u == u * cu) by (nonlinear_arith);
        assert(cv * v == v * cv) by (nonlinear_arith);
    }
    let p: i32 = cu * u + cv * v;
    proof {
        lemma_shr8(p);
    }
    p >> 8
}

/// Converts the leading pixel pairs of a YUYV buffer into packed RGB.
///
/// Handles `yuyv_pair_count` pairs and leaves the rest of `rgb` as it was.
pub fn convert_yuyv(yuyv: &[u8], rgb: &mut [u8], pixels: usize, k: Coefficients)
    requires
        k.bounded(),
    ensures
        yuyv_converted(
            k@,
            yuyv@,
            old(rgb)@,
            final(rgb)@,
            yuyv_pair_count(pixels as int, yuyv@.len() as int, old(rgb)@.len() as int),
        ),
{
    let yuyv_len: usize = yuyv.len();
    let rgb_len: usize = rgb.len();
    let mut n: usize = pixels / 2;
    if yuyv_len / 4 < n {
        n = yuyv_len / 4;
    }
    if rgb_len / 6 < n {
        n = rgb_len / 6;
    }
    let mut i: usize = 0;
    while i < n
        invariant
            k.bounded(),
            i <= n,
            yuyv_len == yuyv@.len(),
            rgb_len == rgb@.len(),
            n as int == yuyv_pair_count(pixels as int, yuyv@.len() as int, old(rgb)@.len() as int),
            4 * n <= yuyv@.len(),
            6 * n <= rgb@.len(),
            rgb@.len() == old(rgb)@.len(),
            forall|j: int| 0 <= j < 6 * i ==> #[trigger] rgb@[j] as int == yuyv_rgb_byte(k@, yuyv@, j),
            forall|j: int| 6 * i <= j < rgb@.len() ==> #[trigger] rgb@[j] == old(rgb)@[j],
        decreases n - i,
    {
        let src: usize = i * 4;
        let dst: usize = i * 6;
        let y0_raw: u8 = yuyv[src];
        let u_raw: u8 = yuyv[src + 1];
        let y1_raw: u8 = yuyv[src + 2];
        let v_raw: u8 = yuyv[src + 3];

        let y0: i32 = scale_shift(y0_raw as i32, k.y_offset, k.y_scale);
        let y1: i32 = scale_shift(y1_raw as i32, k.y_offset, k.y_scale);
        let u: i32 = scale_shift(u_raw as i32, 128, k.c_scale);
        let v: i32 = scale_shift(v_raw as i32, 128, k.c_scale);

        let v_r: i32 = weigh(k.kr, v);
        let uv_g: i32 = weigh_pair(k.kg_u, u, k.kg_v, v);
        let u_b: i32 = weigh(k.kb, u);

        let ghost before = rgb@;
        rgb[dst] = clamp_to_u8(y0 + v_r);
        rgb[dst + 1] = clamp_to_u8(y0 - uv_g);
        rgb[dst + 2] = clamp_to_u8(y0 + u_b);
        rgb[dst + 3] = clamp_to_u8(y1 + v_r);
        rgb[dst + 4] = clamp_to_u8(y1 - uv_g);
        rgb[dst + 5] = clamp_to_u8(y1 + u_b);

        proof {
            assert forall|j: int| 0 <= j < 6 * (i + 1) implies #[trigger] rgb@[j] as int
                == yuyv_rgb_byte(k@, yuyv@, j) by {
                if j < 6 * i {
                    assert(rgb@[j] == before[j]);
                } else {
                    let c = j - 6 * i;
                    assert(j / 6 == i as int);
                    assert(j % 6 == c);
                }
            }
            assert forall|j: int| 6 * (i + 1) <= j < rgb@.len() implies #[trigger] rgb@[j] == old(
                rgb,
            )@[j] by {
                assert(rgb@[j] == before[j]);
            }
        }
        i += 1;
    }
}

} // verus!
