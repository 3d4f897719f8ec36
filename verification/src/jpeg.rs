//! JPEG decoding and encoding, done by outside libraries, and the
//! placing of a decoded image in a frame buffer.

use vstd::prelude::*;

verus! {

/// How the pixels of a decoded image are laid out.
#[derive(Debug, Clone, Copy, PartialEq, Eq, Structural)]
pub enum JpegLayout {
    /// Grey, one byte per pixel.
    L8,
    /// Grey, two bytes per pixel.
    L16,
    /// Red, green, blue, one byte each.
    Rgb24,
    /// Cyan, magenta, yellow, black, one byte each.
    Cmyk32,
}

/// A decoded image.
#[derive(Debug)]
pub struct DecodedJpeg {
    /// The pixels, row by row.
    pub pixels: Vec<u8>,
    pub layout: JpegLayout,
}

/// Why a frame could not be decoded.
#[derive(Debug, Clone, Copy, PartialEq, Eq, Structural)]
pub enum DecodeError {
    /// The data is no image that the decoder can read.
    Undecodable,
}

/// `jpeg_decoder::Decoder::decode` on the given bytes, with the pixel
/// format that `Decoder::info` reports afterwards; `None` where decoding
/// fails or no information on the image is to be had. Nothing is claimed
/// of the pixels: the decoder rounds differently from one processor to
/// another.
#[verifier::external_body]
pub(crate) fn decode_software(data: &[u8]) -> (r: Option<DecodedJpeg>) {
    let mut decoder = jpeg_decoder::Decoder::new(std::io::Cursor::new(data));
    let pixels = decoder.decode().ok()?;
    let layout = match decoder.info()?.pixel_format {
        jpeg_decoder::PixelFormat::L8 => JpegLayout::L8,
        jpeg_decoder::PixelFormat::L16 => JpegLayout::L16,
        jpeg_decoder::PixelFormat::RGB24 => JpegLayout::Rgb24,
        jpeg_decoder::PixelFormat::CMYK32 => JpegLayout::Cmyk32,
    };
    Some(DecodedJpeg { pixels, layout })
}

/// The smaller of two numbers.
pub open spec fn lesser(a: int, b: int) -> int {
    if a <= b {
        a
    } else {
        b
    }
}

/// A frame buffer after a decoded image is placed in it. A grey image of
/// one byte per pixel is spread over the three channels, pixel by pixel,
/// as far as whole pixels of the buffer and `pixel_count` reach. Any
/// other layout is taken as RGB and copied as far as the image, the
/// buffer and `pixel_count * 3` reach.
pub open spec fn filled_from(before: Seq<u8>, pixels: Seq<u8>, layout: JpegLayout, pixel_count: int) -> Seq<
    u8,
> {
    if layout == JpegLayout::L8 {
        Seq::new(
            before.len(),
            |j: int|
                if j / 3 < lesser(pixels.len() as int, pixel_count) && 3 * (j / 3) + 2 < before.len() {
                    pixels[j / 3]
                } else {
                    before[j]
                },
        )
    } else {
        Seq::new(
            before.len(),
            |j: int|
                if j < lesser(pixels.len() as int, pixel_count * 3) {
                    pixels[j]
                } else {
                    before[j]
                },
        )
    }
}

impl DecodedJpeg {
    /// Places the image in a frame buffer for `pixel_count` pixels and
    /// returns how many bytes of the buffer make up the frame.
    pub fn fill(&self, rgb_buffer: &mut [u8], pixel_count: usize) -> (len: usize)
        requires
            pixel_count * 3 <= usize::MAX,
        ensures
            len as int == lesser(pixel_count * 3, old(rgb_buffer)@.len() as int),
            final(rgb_buffer)@ == filled_from(
                old(rgb_buffer)@,
                self.pixels@,
                self.layout,
                pixel_count as int,
            ),
    {
        let expected: usize = pixel_count * 3;
        let buffer_len: usize = rgb_buffer.len();
        let have: usize = self.pixels.len();
        match self.layout {
            JpegLayout::L8 => {
                let mut n: usize = if have <= pixel_count {
                    have
                } else {
                    pixel_count
                };
                if buffer_len / 3 < n {
                    n = buffer_len / 3;
                }
                let mut i: usize = 0;
                while i < n
                    invariant
                        i <= n,
                        n <= have,
                        have == self.pixels@.len(),
                        3 * n <= buffer_len,
                        buffer_len == rgb_buffer@.len(),
                        rgb_buffer@.len() == old(rgb_buffer)@.len(),
                        forall|j: int| 0 <= j < 3 * i ==> #[trigger] rgb_buffer@[j] == self.pixels@[j / 3],
                        forall|j: int|
                            3 * i <= j < buffer_len ==> #[trigger] rgb_buffer@[j] == old(rgb_buffer)@[j],
                    decreases n - i,
                {
                    let gray: u8 = self.pixels[i];
                    let at: usize = i * 3;
                    rgb_buffer[at] = gray;
                    rgb_buffer[at + 1] = gray;
                    rgb_buffer[at + 2] = gray;
                    i += 1;
                }
                assert(rgb_buffer@ =~= filled_from(
                    old(rgb_buffer)@,
                    self.pixels@,
                    self.layout,
                    pixel_count as int,
                ));
            },
            _ => {
                let mut n: usize = if have <= expected {
                    have
                } else {
                    expected
                };
                if buffer_len < n {
                    n = buffer_len;
                }
                let mut i: usize = 0;
                while i < n
                    invariant
                        i <= n,
                        n <= have,
                        have == self.pixels@.len(),
                        n <= buffer_len,
                        buffer_len == rgb_buffer@.len(),
                        rgb_buffer@.len() == old(rgb_buffer)@.len(),
                        forall|j: int| 0 <= j < i ==> #[trigger] rgb_buffer@[j] == self.pixels@[j],
                        forall|j: int|
                            i <= j < buffer_len ==> #[trigger] rgb_buffer@[j] == old(rgb_buffer)@[j],
                    decreases n - i,
                {
                    rgb_buffer[i] = self.pixels[i];
                    i += 1;
                }
                assert(rgb_buffer@ =~= filled_from(
                    old(rgb_buffer)@,
                    self.pixels@,
                    self.layout,
                    pixel_count as int,
                ));
            },
        }
        if expected <= buffer_len {
            expected
        } else {
            buffer_len
        }
    }
}

/// What the encoder makes of an RGB image of the given size at the
/// given quality: a JPEG file, or nothing where it refuses the image.
pub uninterp spec fn jpeg_encoded(rgb: Seq<u8>, width: u32, height: u32, quality: u8) -> Option<Seq<u8>>;

/// The images that the encoder is sure to refuse: a buffer that holds
/// fewer than `width * height * 3` bytes, and a side too long for the 16
/// bits that a JPEG file gives it.
pub open spec fn encoder_refuses(len: int, width: u32, height: u32) -> bool {
    len < width * height * 3 || width > 0xffff || height > 0xffff
}

/// Encoded bytes, or the lack of them, as plain values.
pub open spec fn bytes_view(r: Option<Vec<u8>>) -> Option<Seq<u8>> {
    match r {
        Some(b) => Some(b@),
        None => None,
    }
}

/// `image::ImageBuffer::from_raw` for RGB pixels, then
/// `ImageBuffer::write_to` with the JPEG format at the given quality. The
/// result depends on the arguments alone; it is `None` where the buffer
/// is too short for the size or the encoder refuses the image, as it
/// does for a side of more than 65535 pixels.
#[verifier::external_body]
pub(crate) fn encode_jpeg(rgb_data: &[u8], width: u32, height: u32, quality: u8) -> (r: Option<Vec<u8>>)
    ensures
        bytes_view(r) == jpeg_encoded(rgb_data@, width, height, quality),
        encoder_refuses(rgb_data@.len() as int, width, height) ==> r.is_none(),
{
    let img: image::ImageBuffer<image::Rgb<u8>, Vec<u8>> = image::ImageBuffer::from_raw(
        width,
        height,
        rgb_data.to_vec(),
    )?;
    let mut jpeg_data = Vec::new();
    img.write_to(&mut std::io::Cursor::new(&mut jpeg_data), image::ImageOutputFormat::Jpeg(quality)).ok()?;
    Some(jpeg_data)
}

/// The quality at which previews are encoded.
pub const PREVIEW_QUALITY: u8 = 70;

/// Puts a newly encoded preview in its slot; where encoding failed the
/// slot keeps the preview it had.
pub fn store_preview(slot: &mut Vec<u8>, encoded: Option<Vec<u8>>)
    ensures
        final(slot)@ == match encoded {
            Some(bytes) => bytes@,
            None => old(slot)@,
        },
{
    match encoded {
        Some(bytes) => {
            *slot = bytes;
        },
        None => {},
    }
}

/// Encodes a frame as a preview and puts it in the slot; a frame that
/// cannot be encoded leaves the slot as it was.
pub fn update_preview(slot: &mut Vec<u8>, rgb_data: &[u8], width: u32, height: u32)
    ensures
        final(slot)@ == match jpeg_encoded(rgb_data@, width, height, PREVIEW_QUALITY) {
            Some(bytes) => bytes,
            None => old(slot)@,
        },
        encoder_refuses(rgb_data@.len() as int, width, height) ==> final(slot)@ == old(slot)@,
{
    let encoded = encode_jpeg(rgb_data, width, height, PREVIEW_QUALITY);
    store_preview(slot, encoded);
}

} // verus!
