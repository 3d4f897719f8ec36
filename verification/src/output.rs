//! Framing of rectified frames for a loopback video device.

use vstd::prelude::*;
use vstd::arithmetic::div_mod::lemma_fundamental_div_mod_converse;
use crate::pixel::{clamp_to_u8, clamp_u8, lemma_shr8, shr8, swapped_byte};

verus! {

/// The little-endian value of four bytes, as a video four-character code.
pub open spec fn fourcc_value(s: Seq<u8>) -> int
    recommends
        s.len() == 4,
{
    s[0] as int + 256 * (s[1] as int) + 65536 * (s[2] as int) + 16777216 * (s[3] as int)
}

/// Packs a four-character code into the 32-bit number the kernel uses.
pub fn fourcc(s: &[u8; 4]) -> (code: u32)
    ensures
        code as int == fourcc_value(s@),
{
    let b0: u32 = s[0] as u32;
    let b1: u32 = s[1] as u32;
    let b2: u32 = s[2] as u32;
    let b3: u32 = s[3] as u32;
    b0 + 256 * b1 + 65536 * b2 + 16777216 * b3
}

/// Pixel formats the output can deliver.
#[derive(Debug, Clone, Copy, PartialEq, Eq, Structural)]
pub enum PixelFormat {
    /// YUV 4:2:2, packed.
    Yuyv,
    /// Three bytes per pixel, red first.
    Rgb24,
    /// Three bytes per pixel, blue first.
    Bgr24,
}

impl PixelFormat {
    /// The four-character code of the format: `YUYV`, `RGB3` or `BGR3`.
    pub open spec fn code(self) -> int {
        match self {
            PixelFormat::Yuyv => 0x56595559,
            PixelFormat::Rgb24 => 0x33424752,
            PixelFormat::Bgr24 => 0x33524742,
        }
    }

    /// Bytes that one pixel takes (for the packed format, on average).
    pub open spec fn pixel_bytes(self) -> int {
        match self {
            PixelFormat::Yuyv => 2,
            PixelFormat::Rgb24 => 3,
            PixelFormat::Bgr24 => 3,
        }
    }

    /// The format's short name.
    pub open spec fn label(self) -> Seq<char> {
        match self {
            PixelFormat::Yuyv => "YUYV"@,
            PixelFormat::Rgb24 => "RGB24"@,
            PixelFormat::Bgr24 => "BGR24"@,
        }
    }

    /// The four-character code of the format.
    pub fn fourcc(&self) -> (code: u32)
        ensures
            code as int == self.code(),
    {
        match self {
            PixelFormat::Yuyv => fourcc(&[0x59u8, 0x55u8, 0x59u8, 0x56u8]),
            PixelFormat::Rgb24 => fourcc(&[0x52u8, 0x47u8, 0x42u8, 0x33u8]),
            PixelFormat::Bgr24 => fourcc(&[0x42u8, 0x47u8, 0x52u8, 0x33u8]),
        }
    }

    /// Bytes that one pixel takes.
    pub fn bytes_per_pixel(&self) -> (n: usize)
        ensures
            n as int == self.pixel_bytes(),
    {
        match self {
            PixelFormat::Yuyv => 2,
            PixelFormat::Rgb24 => 3,
            PixelFormat::Bgr24 => 3,
        }
    }

    /// The format's short name.
    pub fn name(&self) -> (r: &'static str)
        ensures
            r@ == self.label(),
    {
        match self {
            PixelFormat::Yuyv => "YUYV",
            PixelFormat::Rgb24 => "RGB24",
            PixelFormat::Bgr24 => "BGR24",
        }
    }
}

/// Converts RGB24 to BGR24. Trailing bytes that form no whole pixel are
/// left out.
pub fn rgb_to_bgr(rgb: &[u8]) -> (bgr: Vec<u8>)
    ensures
        bgr@.len() == 3 * (rgb@.len() / 3),
        forall|j: int| 0 <= j < bgr@.len() ==> #[trigger] bgr@[j] == swapped_byte(rgb@, j),
{
    let n: usize = rgb.len() / 3;
    let mut bgr: Vec<u8> = Vec::with_capacity(rgb.len());
    let mut i: usize = 0;
    while i < n
        invariant
            i <= n,
            n as int == rgb@.len() / 3,
            rgb@.len() <= usize::MAX,
            bgr@.len() == 3 * i,
            forall|j: int| 0 <= j < bgr@.len() ==> #[trigger] bgr@[j] == swapped_byte(rgb@, j),
        decreases n - i,
    {
        let at: usize = i * 3;
        let ghost before = bgr@;
        bgr.push(rgb[at + 2]);
        bgr.push(rgb[at + 1]);
        bgr.push(rgb[at]);
        proof {
            assert forall|j: int| 0 <= j < bgr@.len() implies #[trigger] bgr@[j] == swapped_byte(
                rgb@,
                j,
            ) by {
                if j < 3 * i {
                    assert(bgr@[j] == before[j]);
                } else {
                    assert(j / 3 == i as int);
                    assert(j % 3 == j - 3 * i);
                }
            }
        }
        i += 1;
    }
    bgr
}

/// BT.601 luma of an RGB pixel, limited range.
pub open spec fn luma_of(r: int, g: int, b: int) -> int {
    clamp_u8(shr8(66 * r + 129 * g + 25 * b + 128) + 16)
}

/// BT.601 blue-difference chroma of an RGB pixel.
pub open spec fn cb_of(r: int, g: int, b: int) -> int {
    clamp_u8(shr8(-38 * r - 74 * g + 112 * b + 128) + 128)
}

/// BT.601 red-difference chroma of an RGB pixel.
pub open spec fn cr_of(r: int, g: int, b: int) -> int {
    clamp_u8(shr8(112 * r - 94 * g - 18 * b + 128) + 128)
}

/// Pixel pairs in one row of a YUYV image; a row of odd width ends in a
/// pair whose second pixel repeats the first.
pub open spec fn pairs_per_row(width: int) -> int {
    (width + 1) / 2
}

/// Byte `j` of the YUYV image of an RGB image. Each group of four bytes
/// `Y0 U Y1 V` holds the luma of two neighbouring pixels and the chroma of
/// the first.
pub open spec fn yuyv_byte(rgb: Seq<u8>, width: int, j: int) -> int {
    let pairs = pairs_per_row(width);
    let group = j / 4;
    let part = j % 4;
    let row = group / pairs;
    let x = 2 * (group % pairs);
    let first = (row * width + x) * 3;
    let second = if x + 1 < width {
        first + 3
    } else {
        first
    };
    if part == 0 {
        luma_of(rgb[first] as int, rgb[first + 1] as int, rgb[first + 2] as int)
    } else if part == 1 {
        cb_of(rgb[first] as int, rgb[first + 1] as int, rgb[first + 2] as int)
    } else if part == 2 {
        luma_of(rgb[second] as int, rgb[second + 1] as int, rgb[second + 2] as int)
    } else {
        cr_of(rgb[first] as int, rgb[first + 1] as int, rgb[first + 2] as int)
    }
}

fn luma(r: u8, g: u8, b: u8) -> (y: u8)
    ensures
        y as int == luma_of(r as int, g as int, b as int),
{
    let s: i32 = 66 * (r as i32) + 129 * (g as i32) + 25 * (b as i32) + 128;
    proof {
        lemma_shr8(s);
    }
    clamp_to_u8((s >> 8) + 16)
}

fn chroma_blue(r: u8, g: u8, b: u8) -> (u: u8)
    ensures
        u as int == cb_of(r as int, g as int, b as int),
{
    let s: i32 = 112 * (b as i32) + 128 - 38 * (r as i32) - 74 * (g as i32);
    proof {
        lemma_shr8(s);
    }
    clamp_to_u8((s >> 8) + 128)
}

fn chroma_red(r: u8, g: u8, b: u8) -> (v: u8)
    ensures
        v as int == cr_of(r as int, g as int, b as int),
{
    let s: i32 = 112 * (r as i32) - 94 * (g as i32) - 18 * (b as i32) + 128;
    proof {
        lemma_shr8(s);
    }
    clamp_to_u8((s >> 8) + 128)
}

/// Pixel `(row, x)` lies inside an image of `width * height` pixels.
proof fn lemma_pixel_index(row: int, x: int, width: int, height: int)
    requires
        0 <= row < height,
        0 <= x < width,
    ensures
        0 <= row * width + x < width * height,
{
    assert(0 <= row * width + x < width * height) by (nonlinear_arith)
        requires
            0 <= row < height,
            0 <= x < width,
    ;
}

/// The YUYV image of an image of even width takes two bytes for each
/// pixel.
pub proof fn lemma_whole_frame(width: int, height: int)
    requires
        width >= 0,
        width % 2 == 0,
    ensures
        height * pairs_per_row(width) * 4 == width * height * 2,
{
    let pairs = pairs_per_row(width);
    assert(2 * pairs == width);
    assert(height * pairs * 4 == width * height * 2) by (nonlinear_arith)
        requires
            2 * pairs == width,
    ;
}

/// Converts RGB24 to packed YUYV with the integer BT.601 matrix, offsets
/// +16 for luma and +128 for chroma, taking the chroma of each pair from
/// its first pixel.
pub fn rgb_to_yuyv(rgb: &[u8], width: usize, height: usize) -> (yuyv: Vec<u8>)
    requires
        width * height * 3 <= rgb@.len(),
    ensures
        yuyv@.len() == height * pairs_per_row(width as int) * 4,
        width % 2 == 0 ==> yuyv@.len() == width * height * 2,
        forall|j: int| 0 <= j < yuyv@.len() ==> #[trigger] yuyv@[j] as int == yuyv_byte(rgb@, width as int, j),
{
    proof {
        if width % 2 == 0 {
            lemma_whole_frame(width as int, height as int);
        }
    }
    let mut yuyv: Vec<u8> = Vec::new();
    let rgb_len: usize = rgb.len();
    if width == 0 {
        assert(height * pairs_per_row(width as int) * 4 == 0) by (nonlinear_arith)
            requires
                pairs_per_row(width as int) == 0,
        ;
        return yuyv;
    }
    let pairs: usize = (width - 1) / 2 + 1;
    assert(pairs as int == pairs_per_row(width as int));
    let mut row: usize = 0;
    while row < height
        invariant
            row <= height,
            width >= 1,
            pairs >= 1,
            pairs as int == pairs_per_row(width as int),
            width * height * 3 <= rgb@.len(),
            rgb_len == rgb@.len(),
            yuyv@.len() == row * pairs * 4,
            forall|j: int| 0 <= j < yuyv@.len() ==> #[trigger] yuyv@[j] as int == yuyv_byte(rgb@, width as int, j),
        decreases height - row,
    {
        let mut p: usize = 0;
        while p < pairs
            invariant
                row < height,
                p <= pairs,
                width >= 1,
                pairs >= 1,
                pairs as int == pairs_per_row(width as int),
                width * height * 3 <= rgb@.len(),
                rgb_len == rgb@.len(),
                yuyv@.len() == (row * pairs + p) * 4,
                forall|j: int| 0 <= j < yuyv@.len() ==> #[trigger] yuyv@[j] as int == yuyv_byte(rgb@, width as int, j),
            decreases pairs - p,
        {
            let x: usize = 2 * p;
            proof {
                lemma_pixel_index(row as int, x as int, width as int, height as int);
                if x + 1 < width {
                    lemma_pixel_index(row as int, x + 1, width as int, height as int);
                }
            }
            let first: usize = (row * width + x) * 3;
            let r1: u8 = rgb[first];
            let g1: u8 = rgb[first + 1];
            let b1: u8 = rgb[first + 2];
            let second: usize = if x + 1 < width {
                first + 3
            } else {
                first
            };
            let r2: u8 = rgb[second];
            let g2: u8 = rgb[second + 1];
            let b2: u8 = rgb[second + 2];

            let ghost before = yuyv@;
            let ghost group = row * pairs + p;
            yuyv.push(luma(r1, g1, b1));
            yuyv.push(chroma_blue(r1, g1, b1));
            yuyv.push(luma(r2, g2, b2));
            yuyv.push(chroma_red(r1, g1, b1));
            proof {
                lemma_fundamental_div_mod_converse(group, pairs as int, row as int, p as int);
                assert forall|j: int| 0 <= j < yuyv@.len() implies #[trigger] yuyv@[j] as int
                    == yuyv_byte(rgb@, width as int, j) by {
                    if j < 4 * group {
                        assert(yuyv@[j] == before[j]);
                    } else {
                        assert(j / 4 == group);
                        assert(j % 4 == j - 4 * group);
                    }
                }
            }
            p += 1;
        }
        proof {
            assert((row + 1) * pairs == row * pairs + pairs) by (nonlinear_arith);
        }
        row += 1;
    }
    yuyv
}

/// The error numbers that the write path tells apart, as the platform
/// defines them.
#[derive(Debug, Clone, Copy, PartialEq, Eq, Structural)]
pub struct ErrorCodes {
    /// "Try again": the device's buffer is full.
    pub again: i32,
    /// "Operation would block".
    pub would_block: i32,
    /// "Invalid argument".
    pub invalid: i32,
}

/// What came of handing one frame to the device.
#[derive(Debug, Clone, Copy, PartialEq, Eq, Structural)]
pub enum WriteEvent {
    /// The device took the whole frame.
    Written,
    /// The write failed; the operating system's error number, if any.
    Failed(Option<i32>),
    /// No device is open.
    NotOpen,
}

/// What the writer makes of a write.
#[derive(Debug, Clone, Copy, PartialEq, Eq, Structural)]
pub enum WriteVerdict {
    /// The frame went out.
    Delivered,
    /// The consumer was not reading: the frame was dropped, the producer
    /// goes on.
    Dropped,
    /// The device refused the frame as invalid; it is lost and the error
    /// is reported.
    Rejected,
    /// Another error, reported as it is.
    Failed,
    /// There is no open device to write to.
    NotConnected,
}

/// The verdict on a write event. Backpressure is a drop, never an error.
pub open spec fn verdict_of(event: WriteEvent, codes: ErrorCodes) -> WriteVerdict {
    match event {
        WriteEvent::Written => WriteVerdict::Delivered,
        WriteEvent::NotOpen => WriteVerdict::NotConnected,
        WriteEvent::Failed(Some(code)) => if code == codes.again || code == codes.would_block {
            WriteVerdict::Dropped
        } else if code == codes.invalid {
            WriteVerdict::Rejected
        } else {
            WriteVerdict::Failed
        },
        WriteEvent::Failed(None) => WriteVerdict::Failed,
    }
}

/// A counter one step on, wrapping at the end of its range.
pub open spec fn bumped(n: u64) -> u64 {
    if n == u64::MAX {
        0
    } else {
        (n + 1) as u64
    }
}

/// A frame laid out for the device.
#[derive(Debug)]
pub enum Encoded {
    /// The device takes RGB24: the frame goes out as it came.
    Unchanged,
    /// The frame converted to the device's format.
    Converted(Vec<u8>),
}

/// Why a frame cannot be laid out.
#[derive(Debug, Clone, Copy, PartialEq, Eq, Structural)]
pub enum FrameError {
    /// The buffer does not hold `width * height * 3` bytes.
    SizeMismatch { actual: usize, width: u32, height: u32 },
}

/// What to ask of the device when proposing a format.
#[derive(Debug, Clone, Copy, PartialEq, Eq, Structural)]
pub struct FormatRequest {
    pub width: u32,
    pub height: u32,
    /// Four-character code of the pixel format.
    pub pixelformat: u32,
    /// Bytes in one row.
    pub bytesperline: u32,
    /// Bytes in one frame.
    pub sizeimage: u32,
}

/// The state of the output writer: geometry, negotiated format and
/// counters.
#[derive(Debug, Clone, Copy, PartialEq, Eq, Structural)]
pub struct OutputState {
    pub width: u32,
    pub height: u32,
    pub format: PixelFormat,
    /// Frames handed over without an error, dropped ones included.
    pub frame_count: u64,
    /// Frames dropped because the consumer was not reading.
    pub dropped_count: u64,
    pub initialized: bool,
}

/// The formats to propose to the device, best first.
pub open spec fn format_preference() -> Seq<PixelFormat> {
    seq![PixelFormat::Yuyv, PixelFormat::Rgb24, PixelFormat::Bgr24]
}

/// Seconds that must pass between two warnings about dropped frames.
pub const DROP_WARNING_INTERVAL_SECS: u64 = 5;

/// Whether a dropped frame is worth a warning: the first always is, a
/// later one when the last warning is at least five seconds old.
pub fn drop_warning_due(secs_since_last: Option<u64>) -> (due: bool)
    ensures
        due == match secs_since_last {
            None => true,
            Some(s) => s >= DROP_WARNING_INTERVAL_SECS,
        },
{
    match secs_since_last {
        None => true,
        Some(s) => s >= DROP_WARNING_INTERVAL_SECS,
    }
}

/// Tells a failed write's error number apart.
pub fn classify_write(event: WriteEvent, codes: &ErrorCodes) -> (verdict: WriteVerdict)
    ensures
        verdict == verdict_of(event, *codes),
{
    match event {
        WriteEvent::Written => WriteVerdict::Delivered,
        WriteEvent::NotOpen => WriteVerdict::NotConnected,
        WriteEvent::Failed(Some(code)) => {
            if code == codes.again || code == codes.would_block {
                WriteVerdict::Dropped
            } else if code == codes.invalid {
                WriteVerdict::Rejected
            } else {
                WriteVerdict::Failed
            }
        },
        WriteEvent::Failed(None) => WriteVerdict::Failed,
    }
}

impl OutputState {
    /// The state after a write event: a delivered or dropped frame counts
    /// as handed over, a dropped one also as dropped; an error changes
    /// nothing.
    pub open spec fn after(self, event: WriteEvent, codes: ErrorCodes) -> OutputState {
        match verdict_of(event, codes) {
            WriteVerdict::Delivered => OutputState { frame_count: bumped(self.frame_count), ..self },
            WriteVerdict::Dropped => OutputState {
                frame_count: bumped(self.frame_count),
                dropped_count: bumped(self.dropped_count),
                ..self
            },
            _ => self,
        }
    }

    /// The state after `n` writes in a row that met backpressure.
    pub open spec fn after_backpressure(self, n: nat, codes: ErrorCodes) -> OutputState
        decreases n,
    {
        if n == 0 {
            self
        } else {
            self.after(WriteEvent::Failed(Some(codes.again)), codes).after_backpressure(
                (n - 1) as nat,
                codes,
            )
        }
    }

    /// Bytes of one frame in the given format.
    pub open spec fn frame_bytes(self, format: PixelFormat) -> int {
        self.width * self.height * format.pixel_bytes()
    }

    /// A writer for frames of the given size, not yet initialised, set to
    /// YUYV, the most widely supported format.
    pub fn new(width: u32, height: u32) -> (s: Self)
        ensures
            s == (OutputState {
                width,
                height,
                format: PixelFormat::Yuyv,
                frame_count: 0,
                dropped_count: 0,
                initialized: false,
            }),
    {
        OutputState {
            width,
            height,
            format: PixelFormat::Yuyv,
            frame_count: 0,
            dropped_count: 0,
            initialized: false,
        }
    }

    /// The format to propose at the given attempt, or `None` once every
    /// format has been refused and only a plain open is left.
    pub fn format_attempt(attempt: usize) -> (f: Option<PixelFormat>)
        ensures
            f == if attempt < format_preference().len() {
                Some(format_preference()[attempt as int])
            } else {
                None
            },
    {
        if attempt == 0 {
            Some(PixelFormat::Yuyv)
        } else if attempt == 1 {
            Some(PixelFormat::Rgb24)
        } else if attempt == 2 {
            Some(PixelFormat::Bgr24)
        } else {
            None
        }
    }

    /// Whether a row and a frame in `format` are short enough for the
    /// 32-bit fields of a format request.
    pub open spec fn request_fits(self, format: PixelFormat) -> bool {
        &&& self.width * format.pixel_bytes() <= u32::MAX
        &&& self.frame_bytes(format) <= u32::MAX
    }

    /// The request that proposes `format` for this writer's frame size,
    /// or `None` where a row or a frame is too long for it.
    pub fn format_request(&self, format: PixelFormat) -> (r: Option<FormatRequest>)
        ensures
            r == if self.request_fits(format) {
                Some(
                    FormatRequest {
                        width: self.width,
                        height: self.height,
                        pixelformat: format.code() as u32,
                        bytesperline: (self.width * format.pixel_bytes()) as u32,
                        sizeimage: self.frame_bytes(format) as u32,
                    },
                )
            } else {
                None
            },
    {
        let bpp: u64 = format.bytes_per_pixel() as u64;
        let line: u64 = self.width as u64 * bpp;
        if line > u32::MAX as u64 {
            return None;
        }
        assert(line * self.height == self.frame_bytes(format)) by (nonlinear_arith)
            requires
                line == self.width * format.pixel_bytes(),
        ;
        assert(line * self.height <= 0xffff_ffff * 0xffff_ffff) by (nonlinear_arith)
            requires
                0 <= line <= 0xffff_ffff,
                0 <= self.height <= 0xffff_ffff,
        ;
        let size: u64 = line * self.height as u64;
        if size > u32::MAX as u64 {
            return None;
        }
        Some(
            FormatRequest {
                width: self.width,
                height: self.height,
                pixelformat: format.fourcc(),
                bytesperline: line as u32,
                sizeimage: size as u32,
            },
        )
    }

    /// Records that the device accepted `format`.
    pub fn accept_format(&mut self, format: PixelFormat)
        ensures
            *final(self) == (OutputState { format, initialized: true, ..*old(self) }),
    {
        self.format = format;
        self.initialized = true;
    }

    /// Records that the device was opened without a format being set; the
    /// writer keeps the format it had.
    pub fn accept_raw(&mut self)
        ensures
            *final(self) == (OutputState { initialized: true, ..*old(self) }),
    {
        self.initialized = true;
    }

    /// Lays an RGB24 frame out in the writer's format. The frame must
    /// hold exactly `width * height * 3` bytes.
    pub fn encode_frame(&self, rgb: &[u8]) -> (r: Result<Encoded, FrameError>)
        ensures
            rgb@.len() != self.width * self.height * 3 ==> r == Err::<Encoded, FrameError>(
                FrameError::SizeMismatch { actual: rgb@.len() as usize, width: self.width, height: self.height },
            ),
            rgb@.len() == self.width * self.height * 3 ==> match self.format {
                PixelFormat::Rgb24 => r matches Ok(Encoded::Unchanged),
                PixelFormat::Bgr24 => r matches Ok(Encoded::Converted(bytes)) && bytes@.len()
                    == rgb@.len() && forall|j: int|
                    0 <= j < bytes@.len() ==> #[trigger] bytes@[j] == swapped_byte(rgb@, j),
                PixelFormat::Yuyv => r matches Ok(Encoded::Converted(bytes)) && bytes@.len()
                    == self.height * pairs_per_row(self.width as int) * 4 && forall|j: int|
                    0 <= j < bytes@.len() ==> #[trigger] bytes@[j] as int == yuyv_byte(
                        rgb@,
                        self.width as int,
                        j,
                    ),
            },
    {
        let len: usize = rgb.len();
        assert(self.width * self.height <= 0xffff_ffff * 0xffff_ffff) by (nonlinear_arith)
            requires
                0 <= self.width <= 0xffff_ffff,
                0 <= self.height <= 0xffff_ffff,
        ;
        let expected: u128 = self.width as u128 * self.height as u128 * 3;
        if len as u128 != expected {
            return Err(FrameError::SizeMismatch { actual: len, width: self.width, height: self.height });
        }
        match self.format {
            PixelFormat::Rgb24 => Ok(Encoded::Unchanged),
            PixelFormat::Bgr24 => Ok(Encoded::Converted(rgb_to_bgr(rgb))),
            PixelFormat::Yuyv => {
                assert(self.width as usize * self.height as usize == self.width * self.height)
                    by (nonlinear_arith)
                    requires
                        self.width * self.height * 3 <= usize::MAX,
                        self.width >= 0,
                        self.height >= 0,
                ;
                Ok(Encoded::Converted(rgb_to_yuyv(rgb, self.width as usize, self.height as usize)))
            },
        }
    }

    /// Takes note of what came of a write and says what to make of it.
    pub fn record_write(&mut self, event: WriteEvent, codes: &ErrorCodes) -> (verdict: WriteVerdict)
        ensures
            verdict == verdict_of(event, *codes),
            *final(self) == old(self).after(event, *codes),
    {
        let verdict = classify_write(event, codes);
        match verdict {
            WriteVerdict::Delivered => {
                self.frame_count = self.frame_count.wrapping_add(1);
            },
            WriteVerdict::Dropped => {
                self.frame_count = self.frame_count.wrapping_add(1);
                self.dropped_count = self.dropped_count.wrapping_add(1);
            },
            _ => {},
        }
        verdict
    }
}

/// Under backpressure nothing is reported as an error and every frame is
/// counted as dropped: after `n` writes in a row that found the device's
/// buffer full, the drop counter has advanced by exactly `n` (modulo the
/// counter's range), and each of those writes returned `Dropped`.
pub proof fn lemma_backpressure_drops(state: OutputState, n: nat, codes: ErrorCodes)
    ensures
        verdict_of(WriteEvent::Failed(Some(codes.again)), codes) == WriteVerdict::Dropped,
        verdict_of(WriteEvent::Failed(Some(codes.would_block)), codes) == WriteVerdict::Dropped,
        state.after_backpressure(n, codes).dropped_count as int == (state.dropped_count + n) % 0x1_0000_0000_0000_0000,
        state.after_backpressure(n, codes).frame_count as int == (state.frame_count + n) % 0x1_0000_0000_0000_0000,
        state.after_backpressure(n, codes).format == state.format,
        state.after_backpressure(n, codes).initialized == state.initialized,
    decreases n,
{
    if n > 0 {
        let next = state.after(WriteEvent::Failed(Some(codes.again)), codes);
        lemma_backpressure_drops(next, (n - 1) as nat, codes);
    }
}

} // verus!
