//! Conversion of captured frames into packed RGB, the order in which
//! capture formats are tried, and the decisions of the capture loop.

use vstd::prelude::*;
use crate::pixel::{
    convert_yuyv, swapped_byte, yuyv_converted, yuyv_pair_count, Coefficients, YuvCoefficients,
};
use crate::jpeg::{decode_software, filled_from, DecodeError, JpegLayout};
use crate::stats::{FrameStats, FrameTimings};

verus! {

/// The integer BT.601 matrix of the default conversion, full range.
pub open spec fn fast_bt601() -> YuvCoefficients {
    YuvCoefficients { y_offset: 0, y_scale: 256, c_scale: 256, kr: 359, kg_u: 88, kg_v: 183, kb: 454 }
}

/// Converts YUYV to RGB with the integer BT.601 matrix:
/// `R = Y + (359 V >> 8)`, `G = Y - ((88 U + 183 V) >> 8)`,
/// `B = Y + (454 U >> 8)`, with `U` and `V` biased by -128 and each
/// channel clamped to a byte.
///
/// `width * height / 2` pixel pairs are converted, or as many as both
/// buffers hold if that is fewer; the rest of `rgb` keeps its bytes.
pub fn yuyv_to_rgb(yuyv: &[u8], rgb: &mut [u8], width: usize, height: usize)
    requires
        width * height <= usize::MAX,
    ensures
        yuyv_converted(
            fast_bt601(),
            yuyv@,
            old(rgb)@,
            final(rgb)@,
            yuyv_pair_count(width * height, yuyv@.len() as int, old(rgb)@.len() as int),
        ),
{
    let pixels: usize = width * height;
    let k = Coefficients {
        y_offset: 0,
        y_scale: 256,
        c_scale: 256,
        kr: 359,
        kg_u: 88,
        kg_v: 183,
        kb: 454,
    };
    convert_yuyv(yuyv, rgb, pixels, k);
}

/// How many whole pixels a channel swap handles.
pub open spec fn swap_pixel_count(src_len: int, dst_len: int) -> int {
    if src_len / 3 <= dst_len / 3 {
        src_len / 3
    } else {
        dst_len / 3
    }
}

/// Converts BGR to RGB: channels 0 and 2 of each pixel change places,
/// channel 1 stays. Whole pixels present in both buffers are handled; the
/// rest of `rgb` keeps its bytes.
pub fn bgr_to_rgb(bgr: &[u8], rgb: &mut [u8])
    ensures
        final(rgb)@.len() == old(rgb)@.len(),
        forall|j: int|
            0 <= j < 3 * swap_pixel_count(bgr@.len() as int, old(rgb)@.len() as int)
                ==> #[trigger] final(rgb)@[j] == swapped_byte(bgr@, j),
        forall|j: int|
            3 * swap_pixel_count(bgr@.len() as int, old(rgb)@.len() as int) <= j < old(rgb)@.len()
                ==> #[trigger] final(rgb)@[j] == old(rgb)@[j],
{
    let bgr_len: usize = bgr.len();
    let rgb_len: usize = rgb.len();
    let mut n: usize = bgr_len / 3;
    if rgb_len / 3 < n {
        n = rgb_len / 3;
    }
    let mut i: usize = 0;
    while i < n
        invariant
            i <= n,
            bgr_len == bgr@.len(),
            rgb_len == rgb@.len(),
            n as int == swap_pixel_count(bgr@.len() as int, old(rgb)@.len() as int),
            3 * n <= bgr@.len(),
            3 * n <= rgb@.len(),
            rgb@.len() == old(rgb)@.len(),
            forall|j: int| 0 <= j < 3 * i ==> #[trigger] rgb@[j] == swapped_byte(bgr@, j),
            forall|j: int| 3 * i <= j < rgb@.len() ==> #[trigger] rgb@[j] == old(rgb)@[j],
        decreases n - i,
    {
        let at: usize = i * 3;
        let ghost before = rgb@;
        rgb[at] = bgr[at + 2];
        rgb[at + 1] = bgr[at + 1];
        rgb[at + 2] = bgr[at];
        proof {
            assert forall|j: int| 0 <= j < 3 * (i + 1) implies #[trigger] rgb@[j] == swapped_byte(
                bgr@,
                j,
            ) by {
                if j < 3 * i {
                    assert(rgb@[j] == before[j]);
                } else {
                    assert(j / 3 == i as int);
                    assert(j % 3 == j - 3 * i);
                }
            }
            assert forall|j: int| 3 * (i + 1) <= j < rgb@.len() implies #[trigger] rgb@[j] == old(
                rgb,
            )@[j] by {
                assert(rgb@[j] == before[j]);
            }
        }
        i += 1;
    }
}

/// The format of the frames that a camera delivers, settled when the
/// format is negotiated.
#[derive(Debug, Clone, Copy, PartialEq, Eq, Structural)]
pub enum InputFormat {
    /// Motion JPEG.
    Mjpeg,
    /// YUV 4:2:2, packed.
    Yuyv,
    /// RGB24.
    Rgb,
    /// BGR24.
    Bgr,
    /// Anything else; taken as RGB24.
    Other,
}

/// The four-character codes of the formats to ask a camera for, best
/// first: `MJPG`, `YUYV`, `RGB3`, `BGR3`.
pub open spec fn preferred_codes() -> Seq<Seq<u8>> {
    seq![
        seq![0x4du8, 0x4au8, 0x50u8, 0x47u8],
        seq![0x59u8, 0x55u8, 0x59u8, 0x56u8],
        seq![0x52u8, 0x47u8, 0x42u8, 0x33u8],
        seq![0x42u8, 0x47u8, 0x52u8, 0x33u8],
    ]
}

/// The input format that a four-character code names.
pub open spec fn input_format_of(code: Seq<u8>) -> InputFormat {
    if code == preferred_codes()[0] {
        InputFormat::Mjpeg
    } else if code == preferred_codes()[1] {
        InputFormat::Yuyv
    } else if code == preferred_codes()[2] {
        InputFormat::Rgb
    } else if code == preferred_codes()[3] {
        InputFormat::Bgr
    } else {
        InputFormat::Other
    }
}

/// Whether a list of codes holds the given one.
pub open spec fn offers(available: Seq<[u8; 4]>, code: Seq<u8>) -> bool {
    exists|k: int| 0 <= k < available.len() && (#[trigger] available[k])@ == code
}

fn same_code(a: &[u8; 4], b: &[u8; 4]) -> (r: bool)
    ensures
        r == (a@ == b@),
{
    let r = a[0] == b[0] && a[1] == b[1] && a[2] == b[2] && a[3] == b[3];
    proof {
        if r {
            assert(a@ =~= b@);
        }
    }
    r
}

/// The code of the format at the given rank of preference, or `None`
/// past the last.
pub fn preferred_format(rank: usize) -> (code: Option<[u8; 4]>)
    ensures
        match code {
            Some(c) => rank < 4 && c@ == preferred_codes()[rank as int],
            None => rank >= 4,
        },
{
    let code: Option<[u8; 4]> = if rank == 0 {
        Some([0x4du8, 0x4au8, 0x50u8, 0x47u8])
    } else if rank == 1 {
        Some([0x59u8, 0x55u8, 0x59u8, 0x56u8])
    } else if rank == 2 {
        Some([0x52u8, 0x47u8, 0x42u8, 0x33u8])
    } else if rank == 3 {
        Some([0x42u8, 0x47u8, 0x52u8, 0x33u8])
    } else {
        None
    };
    proof {
        if let Some(c) = code {
            assert(c@ =~= preferred_codes()[rank as int]);
        }
    }
    code
}

impl InputFormat {
    /// The input format that a four-character code names.
    pub fn from_fourcc(code: &[u8; 4]) -> (format: Self)
        ensures
            format == input_format_of(code@),
    {
        let mjpg: [u8; 4] = [0x4du8, 0x4au8, 0x50u8, 0x47u8];
        let yuyv: [u8; 4] = [0x59u8, 0x55u8, 0x59u8, 0x56u8];
        let rgb3: [u8; 4] = [0x52u8, 0x47u8, 0x42u8, 0x33u8];
        let bgr3: [u8; 4] = [0x42u8, 0x47u8, 0x52u8, 0x33u8];
        proof {
            assert(mjpg@ =~= preferred_codes()[0]);
            assert(yuyv@ =~= preferred_codes()[1]);
            assert(rgb3@ =~= preferred_codes()[2]);
            assert(bgr3@ =~= preferred_codes()[3]);
        }
        if same_code(code, &mjpg) {
            InputFormat::Mjpeg
        } else if same_code(code, &yuyv) {
            InputFormat::Yuyv
        } else if same_code(code, &rgb3) {
            InputFormat::Rgb
        } else if same_code(code, &bgr3) {
            InputFormat::Bgr
        } else {
            InputFormat::Other
        }
    }
}

/// Whether the camera's list of formats holds the given code.
pub fn format_offered(available: &[[u8; 4]], code: &[u8; 4]) -> (r: bool)
    ensures
        r == offers(available@, code@),
{
    let n: usize = available.len();
    let mut k: usize = 0;
    while k < n
        invariant
            k <= n,
            n == available@.len(),
            forall|j: int| 0 <= j < k ==> (#[trigger] available@[j])@ != code@,
        decreases n - k,
    {
        if same_code(&available[k], code) {
            return true;
        }
        k += 1;
    }
    false
}

/// The rank of the next format to ask the camera for: the best of those
/// it lists from rank `from` on. `None` means that none is left and the
/// camera's own format is to be used.
pub fn next_format_to_try(available: &[[u8; 4]], from: usize) -> (rank: Option<usize>)
    ensures
        match rank {
            Some(r) => from <= r < 4 && offers(available@, preferred_codes()[r as int]) && forall|q: int|
                from <= q < r ==> !offers(available@, #[trigger] preferred_codes()[q]),
            None => forall|q: int| from <= q < 4 ==> !offers(available@, #[trigger] preferred_codes()[q]),
        },
{
    let mut r: usize = from;
    while r < 4
        invariant
            from <= r,
            forall|q: int| from <= q < r ==> !offers(available@, #[trigger] preferred_codes()[q]),
        decreases 4 - r,
    {
        match preferred_format(r) {
            Some(code) => {
                if format_offered(available, &code) {
                    return Some(r);
                }
            },
            None => {},
        }
        r += 1;
    }
    None
}

/// How many bytes a plain copy moves: as many as both buffers hold.
pub open spec fn copy_len(src_len: int, dst_len: int) -> int {
    if src_len <= dst_len {
        src_len
    } else {
        dst_len
    }
}

/// Copies a frame that needs no conversion, as far as both buffers reach.
pub fn copy_frame(buf: &[u8], rgb: &mut [u8])
    ensures
        final(rgb)@.len() == old(rgb)@.len(),
        forall|j: int|
            0 <= j < copy_len(buf@.len() as int, old(rgb)@.len() as int) ==> #[trigger] final(rgb)@[j]
                == buf@[j],
        forall|j: int|
            copy_len(buf@.len() as int, old(rgb)@.len() as int) <= j < old(rgb)@.len()
                ==> #[trigger] final(rgb)@[j] == old(rgb)@[j],
{
    let buf_len: usize = buf.len();
    let rgb_len: usize = rgb.len();
    let n: usize = if buf_len <= rgb_len {
        buf_len
    } else {
        rgb_len
    };
    let mut i: usize = 0;
    while i < n
        invariant
            i <= n,
            n <= buf@.len(),
            n <= rgb@.len(),
            rgb@.len() == old(rgb)@.len(),
            forall|j: int| 0 <= j < i ==> #[trigger] rgb@[j] == buf@[j],
            forall|j: int| i <= j < rgb@.len() ==> #[trigger] rgb@[j] == old(rgb)@[j],
        decreases n - i,
    {
        rgb[i] = buf[i];
        i += 1;
    }
}

/// What holds of a frame buffer once a Motion JPEG frame has gone
/// through the software decoder. A frame that does not decode leaves the
/// buffer as it was. One that decodes is placed in the buffer as
/// `filled_from` says of some image, and the frame then takes
/// `pixel_count * 3` bytes of the buffer, or all of it if that is less.
pub open spec fn decoded_into(
    before: Seq<u8>,
    after: Seq<u8>,
    pixel_count: int,
    r: Result<usize, DecodeError>,
) -> bool {
    match r {
        Ok(n) => n as int == copy_len(pixel_count * 3, before.len() as int) && exists|
            pixels: Seq<u8>,
            layout: JpegLayout,
        | after == #[trigger] filled_from(before, pixels, layout, pixel_count),
        Err(e) => e == DecodeError::Undecodable && after == before,
    }
}

/// Decodes a Motion JPEG frame with the software decoder into an RGB
/// buffer and returns how many bytes of the buffer make up the frame:
/// `width * height * 3`, or the buffer's length if that is less. A frame
/// that does not decode leaves the buffer as it was.
pub fn decode_mjpeg_software(mjpeg_data: &[u8], rgb_buffer: &mut [u8], width: usize, height: usize) -> (r:
    Result<usize, DecodeError>)
    requires
        width * height * 3 <= usize::MAX,
    ensures
        final(rgb_buffer)@.len() == old(rgb_buffer)@.len(),
        decoded_into(old(rgb_buffer)@, final(rgb_buffer)@, width * height, r),
{
    match decode_software(mjpeg_data) {
        Some(decoded) => {
            assert(width * height <= usize::MAX) by (nonlinear_arith)
                requires
                    width * height * 3 <= usize::MAX,
                    width >= 0,
                    height >= 0,
            ;
            let len = decoded.fill(rgb_buffer, width * height);
            assert(rgb_buffer@ == filled_from(
                old(rgb_buffer)@,
                decoded.pixels@,
                decoded.layout,
                width * height,
            ));
            Ok(len)
        },
        None => Err(DecodeError::Undecodable),
    }
}

/// Turns a captured frame into RGB and says how many bytes of `rgb` make
/// up the frame. Motion JPEG goes through the software decoder and may
/// fail; the other formats always give the whole buffer.
pub fn convert_frame(format: InputFormat, buf: &[u8], rgb: &mut [u8], width: usize, height: usize) -> (r:
    Result<usize, DecodeError>)
    requires
        width * height * 3 <= usize::MAX,
    ensures
        final(rgb)@.len() == old(rgb)@.len(),
        format == InputFormat::Yuyv ==> r == Ok::<usize, DecodeError>(old(rgb)@.len() as usize)
            && yuyv_converted(
            fast_bt601(),
            buf@,
            old(rgb)@,
            final(rgb)@,
            yuyv_pair_count(width * height, buf@.len() as int, old(rgb)@.len() as int),
        ),
        format == InputFormat::Bgr ==> r == Ok::<usize, DecodeError>(old(rgb)@.len() as usize) && (forall|
            j: int,
        |
            0 <= j < 3 * swap_pixel_count(buf@.len() as int, old(rgb)@.len() as int)
                ==> #[trigger] final(rgb)@[j] == swapped_byte(buf@, j)) && (forall|j: int|
            3 * swap_pixel_count(buf@.len() as int, old(rgb)@.len() as int) <= j < old(rgb)@.len()
                ==> #[trigger] final(rgb)@[j] == old(rgb)@[j]),
        format == InputFormat::Rgb || format == InputFormat::Other ==> r == Ok::<usize, DecodeError>(
            old(rgb)@.len() as usize,
        ) && (forall|j: int|
            0 <= j < copy_len(buf@.len() as int, old(rgb)@.len() as int) ==> #[trigger] final(rgb)@[j]
                == buf@[j]) && (forall|j: int|
            copy_len(buf@.len() as int, old(rgb)@.len() as int) <= j < old(rgb)@.len()
                ==> #[trigger] final(rgb)@[j] == old(rgb)@[j]),
        format == InputFormat::Mjpeg ==> decoded_into(old(rgb)@, final(rgb)@, width * height, r),
{
    let whole: usize = rgb.len();
    match format {
        InputFormat::Mjpeg => decode_mjpeg_software(buf, rgb, width, height),
        InputFormat::Yuyv => {
            assert(width * height <= usize::MAX) by (nonlinear_arith)
                requires
                    width * height * 3 <= usize::MAX,
                    width >= 0,
                    height >= 0,
            ;
            yuyv_to_rgb(buf, rgb, width, height);
            Ok(whole)
        },
        InputFormat::Bgr => {
            bgr_to_rgb(buf, rgb);
            Ok(whole)
        },
        _ => {
            copy_frame(buf, rgb);
            Ok(whole)
        },
    }
}

/// Every how many frames a preview is encoded while someone watches.
pub const PREVIEW_INTERVAL: u64 = 3;

/// The time that preview encoding adds to a frame's timings: none for a
/// frame that is not due a preview.
pub open spec fn preview_time(preview_clients_active: bool, frame_count: u64, encode_us: u64) -> Option<u64> {
    if preview_wanted(preview_clients_active, frame_count) {
        Some(encode_us)
    } else {
        None
    }
}

/// While no client watches, the time spent on previews does not advance:
/// no frame is due a preview, and recording a frame that had none leaves
/// both preview counters where they were.
pub proof fn lemma_preview_gating(stats: FrameStats, timings: FrameTimings, frame_count: u64, encode_us: u64)
    requires
        timings.preview_encode_us == preview_time(false, frame_count, encode_us),
    ensures
        !preview_wanted(false, frame_count),
        stats.with_frame(timings).total_preview_encode_us == stats.total_preview_encode_us,
        stats.with_frame(timings).preview_frames_encoded == stats.preview_frames_encoded,
{
}

/// While a client watches, exactly the frames whose number is a multiple
/// of three are due a preview; the first frame of a run is one of them.
pub proof fn lemma_preview_every_third(frame_count: u64)
    ensures
        preview_wanted(true, frame_count) == (frame_count % 3 == 0),
        preview_wanted(true, 0),
{
}

/// Every how many frames a failure that repeats is logged.
pub const FAILURE_LOG_INTERVAL: u64 = 100;

/// Whether the frame with the given number gets a preview: only while a
/// client watches, and then every third frame.
pub open spec fn preview_wanted(preview_clients_active: bool, frame_count: u64) -> bool {
    preview_clients_active && frame_count % PREVIEW_INTERVAL == 0
}

/// Whether the frame with the given number gets a preview.
pub fn preview_due(preview_clients_active: bool, frame_count: u64) -> (due: bool)
    ensures
        due == preview_wanted(preview_clients_active, frame_count),
{
    preview_clients_active && frame_count % PREVIEW_INTERVAL == 0
}

/// Whether a failure at the frame with the given number is logged: one
/// in a hundred.
pub fn failure_log_due(frame_count: u64) -> (due: bool)
    ensures
        due == (frame_count % FAILURE_LOG_INTERVAL == 0),
{
    frame_count % FAILURE_LOG_INTERVAL == 0
}

/// Where the capture loop stands.
#[derive(Debug, Clone, Copy, PartialEq, Eq, Structural)]
pub enum PipelinePhase {
    /// The camera is open and frames are pumped.
    Streaming,
    /// The camera has been released; the loop waits to be told to end.
    Released,
}

/// What the capture loop does next.
#[derive(Debug, Clone, Copy, PartialEq, Eq, Structural)]
pub enum PipelineAction {
    /// Wait for the next frame and process it.
    CaptureFrame,
    /// Close the stream and the device, and report the camera released.
    ReleaseCamera,
    /// Sleep a short while and look again.
    Wait,
    /// Return from the loop.
    Exit,
}

/// The next step of the capture loop and the phase it leads to. A
/// request to release the camera is honoured before the next frame is
/// waited for; once released, the loop only ends, and only when a restart
/// is requested.
pub open spec fn next_step(phase: PipelinePhase, release_requested: bool, restart_requested: bool) -> (
    PipelineAction,
    PipelinePhase,
) {
    match phase {
        PipelinePhase::Streaming => if release_requested {
            (PipelineAction::ReleaseCamera, PipelinePhase::Released)
        } else {
            (PipelineAction::CaptureFrame, PipelinePhase::Streaming)
        },
        PipelinePhase::Released => if restart_requested {
            (PipelineAction::Exit, PipelinePhase::Released)
        } else {
            (PipelineAction::Wait, PipelinePhase::Released)
        },
    }
}

/// Decides the next step of the capture loop.
pub fn pipeline_step(phase: &mut PipelinePhase, release_requested: bool, restart_requested: bool) -> (action:
    PipelineAction)
    ensures
        (action, *final(phase)) == next_step(*old(phase), release_requested, restart_requested),
{
    match *phase {
        PipelinePhase::Streaming => {
            if release_requested {
                *phase = PipelinePhase::Released;
                PipelineAction::ReleaseCamera
            } else {
                PipelineAction::CaptureFrame
            }
        },
        PipelinePhase::Released => {
            if restart_requested {
                PipelineAction::Exit
            } else {
                PipelineAction::Wait
            }
        },
    }
}

/// The device is closed before the loop can end: from streaming, no
/// sequence of steps reaches `Exit` without `ReleaseCamera` before it,
/// and after the release no frame is captured again.
pub proof fn lemma_release_precedes_exit(release_requested: bool, restart_requested: bool)
    ensures
        next_step(PipelinePhase::Streaming, release_requested, restart_requested).0
            != PipelineAction::Exit,
        next_step(PipelinePhase::Released, release_requested, restart_requested).0
            != PipelineAction::CaptureFrame,
        next_step(PipelinePhase::Released, release_requested, restart_requested).1
            == PipelinePhase::Released,
        next_step(PipelinePhase::Streaming, release_requested, restart_requested).1
            == PipelinePhase::Released <==> next_step(
            PipelinePhase::Streaming,
            release_requested,
            restart_requested,
        ).0 == PipelineAction::ReleaseCamera,
{
}

} // verus!
