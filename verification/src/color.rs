//! Colour spaces, quantisation ranges and the integer colour engine.

use vstd::prelude::*;
use crate::pixel::{convert_yuyv, yuyv_converted, yuyv_pair_count, Coefficients, YuvCoefficients};

verus! {

/// Colour standard of a YCbCr signal.
#[derive(Debug, Clone, Copy, PartialEq, Eq, Structural)]
pub enum ColorSpace {
    /// BT.601, standard definition.
    Bt601,
    /// BT.709, high definition.
    Bt709,
    /// BT.2020, ultra high definition (matrix only, no tone mapping).
    Bt2020,
}

impl Default for ColorSpace {
    fn default() -> (r: Self)
        ensures
            r == ColorSpace::Bt709,
    {
        ColorSpace::Bt709
    }
}

impl ColorSpace {
    /// The name shown to an operator.
    pub open spec fn label(self) -> Seq<char> {
        match self {
            ColorSpace::Bt601 => "BT.601 (SD)"@,
            ColorSpace::Bt709 => "BT.709 (HD)"@,
            ColorSpace::Bt2020 => "BT.2020 (UHD)"@,
        }
    }

    /// The name shown to an operator.
    pub fn as_str(&self) -> (r: &'static str)
        ensures
            r@ == self.label(),
    {
        match self {
            ColorSpace::Bt601 => "BT.601 (SD)",
            ColorSpace::Bt709 => "BT.709 (HD)",
            ColorSpace::Bt2020 => "BT.2020 (UHD)",
        }
    }

    /// Every colour space, in the order an operator is offered them.
    pub fn all() -> (r: &'static [ColorSpace])
        ensures
            r@ == seq![ColorSpace::Bt601, ColorSpace::Bt709, ColorSpace::Bt2020],
    {
        let r: &'static [ColorSpace] = &[ColorSpace::Bt601, ColorSpace::Bt709, ColorSpace::Bt2020];
        assert(r@ =~= seq![ColorSpace::Bt601, ColorSpace::Bt709, ColorSpace::Bt2020]);
        r
    }
}

/// Range that the YCbCr values occupy.
#[derive(Debug, Clone, Copy, PartialEq, Eq, Structural)]
pub enum QuantizationRange {
    /// Luma 16..235, chroma 16..240.
    Limited,
    /// Luma and chroma 0..255.
    Full,
}

impl Default for QuantizationRange {
    fn default() -> (r: Self)
        ensures
            r == QuantizationRange::Limited,
    {
        QuantizationRange::Limited
    }
}

impl QuantizationRange {
    /// The name shown to an operator.
    pub open spec fn label(self) -> Seq<char> {
        match self {
            QuantizationRange::Limited => "Limited (16-235)"@,
            QuantizationRange::Full => "Full (0-255)"@,
        }
    }

    /// The name shown to an operator.
    pub fn as_str(&self) -> (r: &'static str)
        ensures
            r@ == self.label(),
    {
        match self {
            QuantizationRange::Limited => "Limited (16-235)",
            QuantizationRange::Full => "Full (0-255)",
        }
    }
}

/// Whether colour correction is on when a configuration does not say.
pub fn default_enabled() -> (r: bool)
    ensures
        !r,
{
    false
}

/// Conversion coefficients as integers scaled by 256.
#[derive(Debug, Clone, Copy, PartialEq, Eq, Structural)]
pub struct FixedPointMatrix {
    /// Contribution of V to red.
    pub kr: i32,
    /// Contribution of U to green.
    pub kg_u: i32,
    /// Contribution of V to green.
    pub kg_v: i32,
    /// Contribution of U to blue.
    pub kb: i32,
}

/// The scaled coefficients of a colour space: each real coefficient times
/// 256, truncated.
pub open spec fn matrix_for(cs: ColorSpace) -> FixedPointMatrix {
    match cs {
        ColorSpace::Bt601 => FixedPointMatrix { kr: 358, kg_u: 88, kg_v: 182, kb: 453 },
        ColorSpace::Bt709 => FixedPointMatrix { kr: 403, kg_u: 47, kg_v: 119, kb: 475 },
        ColorSpace::Bt2020 => FixedPointMatrix { kr: 377, kg_u: 42, kg_v: 146, kb: 481 },
    }
}

impl FixedPointMatrix {
    /// The scaled coefficients of a colour space.
    pub fn from_color_space(cs: ColorSpace) -> (m: Self)
        ensures
            m == matrix_for(cs),
    {
        match cs {
            ColorSpace::Bt601 => FixedPointMatrix { kr: 358, kg_u: 88, kg_v: 182, kb: 453 },
            ColorSpace::Bt709 => FixedPointMatrix { kr: 403, kg_u: 47, kg_v: 119, kb: 475 },
            ColorSpace::Bt2020 => FixedPointMatrix { kr: 377, kg_u: 42, kg_v: 146, kb: 481 },
        }
    }
}

/// The whole parameter set of a conversion: the matrix of the colour
/// space, and for limited range the expansion `Y' = (Y - 16) * 298 >> 8`,
/// `C' = (C - 128) * 291 >> 8`; full range passes unchanged.
pub open spec fn conversion_for(cs: ColorSpace, range: QuantizationRange) -> YuvCoefficients {
    let m = matrix_for(cs);
    match range {
        QuantizationRange::Limited => YuvCoefficients {
            y_offset: 16,
            y_scale: 298,
            c_scale: 291,
            kr: m.kr as int,
            kg_u: m.kg_u as int,
            kg_v: m.kg_v as int,
            kb: m.kb as int,
        },
        QuantizationRange::Full => YuvCoefficients {
            y_offset: 0,
            y_scale: 256,
            c_scale: 256,
            kr: m.kr as int,
            kg_u: m.kg_u as int,
            kg_v: m.kg_v as int,
            kb: m.kb as int,
        },
    }
}

/// Converts YUYV to RGB with the matrix of `color_space` and the range
/// expansion of `input_range`.
///
/// `width * height / 2` pixel pairs are converted, or as many as both
/// buffers hold if that is fewer; the rest of `rgb` keeps its bytes.
pub fn yuyv_to_rgb_corrected(
    yuyv: &[u8],
    rgb: &mut [u8],
    width: usize,
    height: usize,
    color_space: ColorSpace,
    input_range: QuantizationRange,
)
    requires
        width * height <= usize::MAX,
    ensures
        yuyv_converted(
            conversion_for(color_space, input_range),
            yuyv@,
            old(rgb)@,
            final(rgb)@,
            yuyv_pair_count(width * height, yuyv@.len() as int, old(rgb)@.len() as int),
        ),
{
    let matrix = FixedPointMatrix::from_color_space(color_space);
    let pixels: usize = width * height;
    let k = match input_range {
        QuantizationRange::Limited => Coefficients {
            y_offset: 16,
            y_scale: 298,
            c_scale: 291,
            kr: matrix.kr,
            kg_u: matrix.kg_u,
            kg_v: matrix.kg_v,
            kb: matrix.kb,
        },
        QuantizationRange::Full => Coefficients {
            y_offset: 0,
            y_scale: 256,
            c_scale: 256,
            kr: matrix.kr,
            kg_u: matrix.kg_u,
            kg_v: matrix.kg_v,
            kb: matrix.kb,
        },
    };
    assert(k@ == conversion_for(color_space, input_range));
    convert_yuyv(yuyv, rgb, pixels, k);
}

/// A limited-range channel value stretched to full range:
/// `(v - 16) * 255 / 219`, kept within a byte.
pub open spec fn expanded(v: u8) -> int {
    if v < 16 {
        0
    } else if (v - 16) * 255 / 219 > 255 {
        255
    } else {
        (v - 16) * 255 / 219
    }
}

/// What a range expansion makes of a buffer.
pub open spec fn range_expanded(before: Seq<u8>, range: QuantizationRange) -> Seq<u8> {
    match range {
        QuantizationRange::Full => before,
        QuantizationRange::Limited => Seq::new(before.len(), |j: int| expanded(before[j]) as u8),
    }
}

fn expand_value(v: u8) -> (r: u8)
    ensures
        r as int == expanded(v),
{
    if v < 16 {
        0
    } else {
        let e: u32 = (v as u32 - 16) * 255 / 219;
        if e > 255 {
            255
        } else {
            e as u8
        }
    }
}

/// Expands a limited-range RGB buffer to full range in place; a
/// full-range buffer is left alone.
pub fn apply_range_expansion(rgb: &mut [u8], input_range: QuantizationRange)
    ensures
        final(rgb)@ == range_expanded(old(rgb)@, input_range),
{
    match input_range {
        QuantizationRange::Full => {},
        QuantizationRange::Limited => {
            let n: usize = rgb.len();
            let mut i: usize = 0;
            while i < n
                invariant
                    i <= n,
                    n == rgb@.len(),
                    rgb@.len() == old(rgb)@.len(),
                    forall|j: int| 0 <= j < i ==> #[trigger] rgb@[j] as int == expanded(old(rgb)@[j]),
                    forall|j: int| i <= j < n ==> #[trigger] rgb@[j] == old(rgb)@[j],
                decreases n - i,
            {
                let v: u8 = rgb[i];
                rgb[i] = expand_value(v);
                i += 1;
            }
            assert(rgb@ =~= range_expanded(old(rgb)@, input_range));
        },
    }
}

/// Lookup tables for gamma and for brightness and contrast.
pub struct ColorCorrectionLUT {
    /// Gamma table.
    pub gamma_lut: [u8; 256],
    /// Brightness and contrast table.
    pub bc_lut: [u8; 256],
    /// Whether the tables change nothing.
    pub is_identity: bool,
}

impl ColorCorrectionLUT {
    /// What the tables make of one value: the brightness and contrast
    /// table applied to the gamma table's entry, or the value itself when
    /// the tables are the identity.
    pub open spec fn applied(&self, value: u8) -> u8 {
        if self.is_identity {
            value
        } else {
            self.bc_lut@[self.gamma_lut@[value as int] as int]
        }
    }

    /// Applies the tables to one value.
    pub fn apply(&self, value: u8) -> (r: u8)
        ensures
            r == self.applied(value),
    {
        if self.is_identity {
            value
        } else {
            self.bc_lut[self.gamma_lut[value as usize] as usize]
        }
    }
}

/// Applies the lookup tables to every byte of a buffer.
pub fn apply_lut(rgb: &mut [u8], lut: &ColorCorrectionLUT)
    ensures
        final(rgb)@ == Seq::new(old(rgb)@.len(), |j: int| lut.applied(old(rgb)@[j])),
{
    if lut.is_identity {
        assert(rgb@ =~= Seq::new(old(rgb)@.len(), |j: int| lut.applied(old(rgb)@[j])));
        return ;
    }
    let n: usize = rgb.len();
    let mut i: usize = 0;
    while i < n
        invariant
            i <= n,
            n == rgb@.len(),
            rgb@.len() == old(rgb)@.len(),
            forall|j: int| 0 <= j < i ==> #[trigger] rgb@[j] == lut.applied(old(rgb)@[j]),
            forall|j: int| i <= j < n ==> #[trigger] rgb@[j] == old(rgb)@[j],
        decreases n - i,
    {
        let v: u8 = rgb[i];
        rgb[i] = lut.apply(v);
        i += 1;
    }
    assert(rgb@ =~= Seq::new(old(rgb)@.len(), |j: int| lut.applied(old(rgb)@[j])));
}

/// Channel totals over a sparse sample of an image, the input of a
/// grey-world white-balance estimate.
#[derive(Debug, Clone, Copy, PartialEq, Eq, Structural)]
pub struct ChannelSums {
    /// Sum of the red bytes of the sampled pixels.
    pub red: u64,
    /// Sum of their green bytes.
    pub green: u64,
    /// Sum of their blue bytes.
    pub blue: u64,
    /// Number of pixels sampled.
    pub count: u64,
}

/// The stride actually used: a stride of zero counts as one.
pub open spec fn effective_step(step: int) -> int {
    if step < 1 {
        1
    } else {
        step
    }
}

/// Number of whole pixels of an RGB buffer from pixel `from` on.
pub open spec fn remaining_pixels(rgb: Seq<u8>, from: int) -> int {
    if from < rgb.len() / 3 {
        rgb.len() / 3 - from
    } else {
        0
    }
}

/// Sum of one channel over the pixels `from`, `from + step`, ... of an
/// RGB buffer.
pub open spec fn sampled_sum(rgb: Seq<u8>, channel: int, step: int, from: int) -> int
    decreases remaining_pixels(rgb, from),
    when step >= 1
{
    if from >= rgb.len() / 3 {
        0
    } else {
        rgb[3 * from + channel] as int + sampled_sum(rgb, channel, step, from + step)
    }
}

/// Number of the pixels `from`, `from + step`, ... of an RGB buffer.
pub open spec fn sampled_count(rgb: Seq<u8>, step: int, from: int) -> int
    decreases remaining_pixels(rgb, from),
    when step >= 1
{
    if from >= rgb.len() / 3 {
        0
    } else {
        1 + sampled_count(rgb, step, from + step)
    }
}

/// A sampled sum is at most 255 for each pixel that remains, and the
/// sampled count at most the number of pixels that remain.
pub proof fn lemma_sampled_bounds(rgb: Seq<u8>, channel: int, step: int, from: int)
    requires
        step >= 1,
        0 <= channel < 3,
        0 <= from,
    ensures
        0 <= sampled_sum(rgb, channel, step, from) <= 255 * sampled_count(rgb, step, from),
        0 <= sampled_count(rgb, step, from),
        from <= rgb.len() / 3 ==> sampled_count(rgb, step, from) <= rgb.len() / 3 - from,
        from > rgb.len() / 3 ==> sampled_count(rgb, step, from) == 0,
    decreases remaining_pixels(rgb, from),
{
    if from < rgb.len() / 3 {
        lemma_sampled_bounds(rgb, channel, step, from + step);
    }
}

/// Adds up the three channels of every `step`-th pixel of an RGB buffer,
/// starting with the first; trailing bytes that form no whole pixel are
/// ignored.
pub fn sample_channel_sums(rgb: &[u8], step: usize) -> (sums: ChannelSums)
    requires
        255 * (rgb@.len() / 3) <= u64::MAX,
    ensures
        sums.red as int == sampled_sum(rgb@, 0, effective_step(step as int), 0),
        sums.green as int == sampled_sum(rgb@, 1, effective_step(step as int), 0),
        sums.blue as int == sampled_sum(rgb@, 2, effective_step(step as int), 0),
        sums.count as int == sampled_count(rgb@, effective_step(step as int), 0),
{
    let stride: usize = if step < 1 {
        1
    } else {
        step
    };
    let pixels: usize = rgb.len() / 3;
    let mut red: u64 = 0;
    let mut green: u64 = 0;
    let mut blue: u64 = 0;
    let mut count: u64 = 0;
    let mut i: usize = 0;
    proof {
        lemma_sampled_bounds(rgb@, 0, stride as int, 0);
        lemma_sampled_bounds(rgb@, 1, stride as int, 0);
        lemma_sampled_bounds(rgb@, 2, stride as int, 0);
    }
    while i < pixels
        invariant
            stride >= 1,
            pixels as int == rgb@.len() / 3,
            rgb@.len() <= usize::MAX,
            255 * pixels <= u64::MAX,
            i <= pixels,
            red + sampled_sum(rgb@, 0, stride as int, i as int) == sampled_sum(rgb@, 0, stride as int, 0),
            green + sampled_sum(rgb@, 1, stride as int, i as int) == sampled_sum(
                rgb@,
                1,
                stride as int,
                0,
            ),
            blue + sampled_sum(rgb@, 2, stride as int, i as int) == sampled_sum(rgb@, 2, stride as int, 0),
            count + sampled_count(rgb@, stride as int, i as int) == sampled_count(
                rgb@,
                stride as int,
                0,
            ),
            sampled_count(rgb@, stride as int, 0) <= pixels,
            sampled_sum(rgb@, 0, stride as int, 0) <= 255 * pixels,
            sampled_sum(rgb@, 1, stride as int, 0) <= 255 * pixels,
            sampled_sum(rgb@, 2, stride as int, 0) <= 255 * pixels,
        decreases pixels - i,
    {
        let at: usize = i * 3;
        proof {
            lemma_sampled_bounds(rgb@, 0, stride as int, i + stride);
            lemma_sampled_bounds(rgb@, 1, stride as int, i + stride);
            lemma_sampled_bounds(rgb@, 2, stride as int, i + stride);
            lemma_sampled_bounds(rgb@, 0, stride as int, pixels as int);
            lemma_sampled_bounds(rgb@, 1, stride as int, pixels as int);
            lemma_sampled_bounds(rgb@, 2, stride as int, pixels as int);
        }
        red = red + rgb[at] as u64;
        green = green + rgb[at + 1] as u64;
        blue = blue + rgb[at + 2] as u64;
        count = count + 1;
        if pixels - i <= stride {
            // the next sample would lie past the last pixel
            i = pixels;
        } else {
            i = i + stride;
        }
    }
    ChannelSums { red, green, blue, count }
}

} // verus!
