//! Nearest-neighbour sampling through a table of source pixels.
//!
//! The table gives, for every destination pixel, the source pixel to read,
//! as coordinates already rounded to whole pixels. Coordinates past the
//! source image are limited to its last column and row.

use vstd::prelude::*;
use vstd::arithmetic::div_mod::lemma_fundamental_div_mod_converse;

verus! {

/// The source pixel that a destination pixel is read from.
#[derive(Debug, Clone, Copy, PartialEq, Eq, Structural)]
pub struct SourcePixel {
    pub x: usize,
    pub y: usize,
}

/// A coordinate limited to an axis of `size` pixels.
pub open spec fn limited(v: int, size: int) -> int {
    if v < size - 1 {
        v
    } else {
        size - 1
    }
}

/// Where in the source buffer a source pixel starts.
pub open spec fn source_offset(p: SourcePixel, src_w: int, src_h: int, stride: int, channels: int) -> int {
    limited(p.y as int, src_h) * stride + limited(p.x as int, src_w) * channels
}

/// Channel `c` of a sample read at `offset`: the source byte, or 0 past
/// the channels or past the end of the buffer.
pub open spec fn sample_byte(src: Seq<u8>, offset: int, channels: int, c: int) -> u8 {
    if c < channels && offset + c < src.len() {
        src[offset + c]
    } else {
        0
    }
}

fn offset_of(p: SourcePixel, src_w: usize, src_h: usize, stride: usize, channels: usize) -> (r: Option<usize>)
    requires
        src_w >= 1,
        src_h >= 1,
    ensures
        match r {
            Some(o) => o as int == source_offset(p, src_w as int, src_h as int, stride as int, channels as int),
            None => source_offset(p, src_w as int, src_h as int, stride as int, channels as int)
                > usize::MAX,
        },
{
    let x: usize = if p.x < src_w - 1 {
        p.x
    } else {
        src_w - 1
    };
    let y: usize = if p.y < src_h - 1 {
        p.y
    } else {
        src_h - 1
    };
    assert(y * stride >= 0 && x * channels >= 0) by (nonlinear_arith)
        requires
            y >= 0,
            stride >= 0,
            x >= 0,
            channels >= 0,
    ;
    match y.checked_mul(stride) {
        None => None,
        Some(rows) => match x.checked_mul(channels) {
            None => None,
            Some(columns) => rows.checked_add(columns),
        },
    }
}

/// Reads the pixel at `(x, y)`, limited to the image, from a buffer of
/// `channels` bytes per pixel and `stride` bytes per row. Up to four
/// channels are read; what lies past the buffer reads as 0.
pub fn nearest_sample(
    src: &[u8],
    stride: usize,
    width: usize,
    height: usize,
    channels: usize,
    x: usize,
    y: usize,
) -> (pixel: [u8; 4])
    requires
        width >= 1,
        height >= 1,
    ensures
        forall|c: int|
            0 <= c < 4 ==> #[trigger] pixel@[c] == sample_byte(
                src@,
                source_offset(
                    SourcePixel { x, y },
                    width as int,
                    height as int,
                    stride as int,
                    channels as int,
                ),
                channels as int,
                c,
            ),
{
    let mut pixel: [u8; 4] = [0u8, 0u8, 0u8, 0u8];
    let len: usize = src.len();
    let ghost at = source_offset(
        SourcePixel { x, y },
        width as int,
        height as int,
        stride as int,
        channels as int,
    );
    match offset_of(SourcePixel { x, y }, width, height, stride, channels) {
        None => {},
        Some(offset) => {
            let mut c: usize = 0;
            while c < 4 && c < channels
                invariant
                    c <= 4,
                    len == src@.len(),
                    offset as int == at,
                    forall|k: int| 0 <= k < c ==> #[trigger] pixel@[k] == sample_byte(src@, at, channels as int, k),
                    forall|k: int| c <= k < 4 ==> #[trigger] pixel@[k] == 0,
                decreases 4 - c,
            {
                if offset < len && c < len - offset {
                    pixel[c] = src[offset + c];
                }
                c += 1;
            }
        },
    }
    pixel
}

/// How many rows of the destination a warp reaches: the rows of the
/// transform, or the rows that the buffer has begun if that is fewer.
pub open spec fn rows_warped(dst_len: int, dst_stride: int, dst_h: int) -> int {
    let begun = (dst_len + dst_stride - 1) / dst_stride;
    if dst_h <= begun {
        dst_h
    } else {
        begun
    }
}

/// Byte `j` of the destination after a nearest-neighbour warp. The byte
/// belongs to row `j / dst_stride`, and within it to channel
/// `c` of pixel `dst_x`; it is read from the same channel of the source
/// pixel that the table gives for `(row, dst_x)`. A byte outside the
/// transform's rows and columns, or whose source lies past the source
/// buffer, keeps its value.
pub open spec fn warped_byte(
    lut: Seq<SourcePixel>,
    src: Seq<u8>,
    src_stride: int,
    src_w: int,
    src_h: int,
    before: Seq<u8>,
    dst_stride: int,
    dst_w: int,
    dst_h: int,
    channels: int,
    j: int,
) -> u8 {
    let row = j / dst_stride;
    let within = j % dst_stride;
    if channels <= 0 {
        before[j]
    } else {
        let dst_x = within / channels;
        let c = within % channels;
        let offset = source_offset(lut[row * dst_w + dst_x], src_w, src_h, src_stride, channels);
        if row < dst_h && dst_x < dst_w && offset + c < src.len() {
            src[offset + c]
        } else {
            before[j]
        }
    }
}

/// Row `row`, pixel `dst_x` of the table lies inside it.
proof fn lemma_table_index(row: int, dst_x: int, dst_w: int, rows: int)
    requires
        0 <= row < rows,
        0 <= dst_x < dst_w,
    ensures
        0 <= row * dst_w + dst_x < rows * dst_w,
{
    assert(0 <= row * dst_w + dst_x < rows * dst_w) by (nonlinear_arith)
        requires
            0 <= row < rows,
            0 <= dst_x < dst_w,
    ;
}

/// Warps an image by nearest-neighbour sampling: every destination pixel
/// takes the bytes of the source pixel that the table names for it.
///
/// The destination is taken row by row, `dst_stride` bytes to a row, for
/// at most `dst_h` rows; the table holds `dst_w` entries for each row.
pub fn warp_image_fast(
    lut: &[SourcePixel],
    src: &[u8],
    src_stride: usize,
    src_w: usize,
    src_h: usize,
    dst: &mut [u8],
    dst_stride: usize,
    dst_w: usize,
    dst_h: usize,
    channels: usize,
)
    requires
        src_w >= 1,
        src_h >= 1,
        dst_stride >= 1,
        lut@.len() >= rows_warped(old(dst)@.len() as int, dst_stride as int, dst_h as int) * dst_w,
    ensures
        final(dst)@.len() == old(dst)@.len(),
        forall|j: int|
            0 <= j < old(dst)@.len() ==> #[trigger] final(dst)@[j] == warped_byte(
                lut@,
                src@,
                src_stride as int,
                src_w as int,
                src_h as int,
                old(dst)@,
                dst_stride as int,
                dst_w as int,
                dst_h as int,
                channels as int,
                j,
            ),
{
    let src_len: usize = src.len();
    let dst_len: usize = dst.len();
    let lut_len: usize = lut.len();
    if channels == 0 {
        return ;
    }
    let ghost rows = rows_warped(dst_len as int, dst_stride as int, dst_h as int);
    let mut row: usize = 0;
    let mut row_start: usize = 0;
    while row < dst_h && row_start < dst_len
        invariant
            src_w >= 1,
            src_h >= 1,
            dst_stride >= 1,
            channels >= 1,
            src_len == src@.len(),
            dst_len == dst@.len(),
            dst@.len() == old(dst)@.len(),
            lut_len == lut@.len(),
            rows == rows_warped(dst_len as int, dst_stride as int, dst_h as int),
            lut@.len() >= rows * dst_w,
            row <= dst_h,
            row_start <= dst_len,
            row_start < dst_len ==> row_start == row * dst_stride,
            row_start == dst_len ==> row * dst_stride >= dst_len,
            forall|j: int|
                0 <= j < row_start ==> #[trigger] dst@[j] == warped_byte(
                    lut@,
                    src@,
                    src_stride as int,
                    src_w as int,
                    src_h as int,
                    old(dst)@,
                    dst_stride as int,
                    dst_w as int,
                    dst_h as int,
                    channels as int,
                    j,
                ),
            forall|j: int| row_start <= j < dst_len ==> #[trigger] dst@[j] == old(dst)@[j],
        decreases dst_h - row,
    {
        let row_len: usize = if dst_len - row_start < dst_stride {
            dst_len - row_start
        } else {
            dst_stride
        };
        proof {
            // the row has begun, so it is one of the rows warped
            assert(row < rows) by {
                assert((row + 1) * dst_stride == row * dst_stride + dst_stride) by (nonlinear_arith);
                lemma_fundamental_div_mod_converse(
                    (row + 1) * dst_stride,
                    dst_stride as int,
                    row + 1,
                    0,
                );
                vstd::arithmetic::div_mod::lemma_div_is_ordered(
                    (row + 1) * dst_stride,
                    dst_len + dst_stride - 1,
                    dst_stride as int,
                );
            }
        }
        let mut dst_x: usize = 0;
        let mut d: usize = 0;
        while dst_x < dst_w && d < row_len
            invariant
                src_w >= 1,
                src_h >= 1,
                dst_stride >= 1,
                channels >= 1,
                src_len == src@.len(),
                dst_len == dst@.len(),
                dst@.len() == old(dst)@.len(),
                lut_len == lut@.len(),
                lut@.len() >= rows * dst_w,
                row < rows,
                row < dst_h,
                row_start < dst_len,
                row_start == row * dst_stride,
                row_len <= dst_stride,
                row_start + row_len <= dst_len,
                row_len == dst_stride || row_start + row_len == dst_len,
                dst_x <= dst_w,
                d <= row_len,
                d < row_len ==> d == dst_x * channels,
                d == row_len ==> dst_x * channels >= row_len || dst_x == 0,
                forall|j: int|
                    0 <= j < row_start + d ==> #[trigger] dst@[j] == warped_byte(
                        lut@,
                        src@,
                        src_stride as int,
                        src_w as int,
                        src_h as int,
                        old(dst)@,
                        dst_stride as int,
                        dst_w as int,
                        dst_h as int,
                        channels as int,
                        j,
                    ),
                forall|j: int| row_start + d <= j < dst_len ==> #[trigger] dst@[j] == old(dst)@[j],
            decreases dst_w - dst_x,
        {
            proof {
                lemma_table_index(row as int, dst_x as int, dst_w as int, rows);
            }
            let entry = lut[row * dst_w + dst_x];
            let offset = offset_of(entry, src_w, src_h, src_stride, channels);
            let ghost at = source_offset(entry, src_w as int, src_h as int, src_stride as int, channels as int);
            let mut c: usize = 0;
            while c < channels && d + c < row_len
                invariant
                    channels >= 1,
                    dst_stride >= 1,
                    src_len == src@.len(),
                    dst_len == dst@.len(),
                    dst@.len() == old(dst)@.len(),
                    row_start == row * dst_stride,
                    row < dst_h,
                    dst_x < dst_w,
                    row_len <= dst_stride,
                    row_start + row_len <= dst_len,
                    d < row_len,
                    d == dst_x * channels,
                    c <= channels,
                    d + c <= row_len,
                    entry == lut@[row * dst_w + dst_x],
                    at == source_offset(
                        entry,
                        src_w as int,
                        src_h as int,
                        src_stride as int,
                        channels as int,
                    ),
                    match offset {
                        Some(o) => o as int == at,
                        None => at > usize::MAX,
                    },
                    forall|j: int|
                        0 <= j < row_start + d + c ==> #[trigger] dst@[j] == warped_byte(
                            lut@,
                            src@,
                            src_stride as int,
                            src_w as int,
                            src_h as int,
                            old(dst)@,
                            dst_stride as int,
                            dst_w as int,
                            dst_h as int,
                            channels as int,
                            j,
                        ),
                    forall|j: int| row_start + d + c <= j < dst_len ==> #[trigger] dst@[j] == old(dst)@[j],
                decreases channels - c,
            {
                let target: usize = row_start + d + c;
                proof {
                    lemma_fundamental_div_mod_converse(
                        target as int,
                        dst_stride as int,
                        row as int,
                        d + c,
                    );
                    lemma_fundamental_div_mod_converse(d + c, channels as int, dst_x as int, c as int);
                }
                match offset {
                    Some(o) => {
                        if o < src_len && c < src_len - o {
                            dst[target] = src[o + c];
                        }
                    },
                    None => {},
                }
                c += 1;
            }
            if row_len - d <= channels {
                proof {
                    assert((dst_x + 1) * channels == dst_x * channels + channels) by (nonlinear_arith);
                }
                d = row_len;
            } else {
                proof {
                    assert((dst_x + 1) * channels == dst_x * channels + channels) by (nonlinear_arith);
                }
                d = d + channels;
            }
            dst_x += 1;
        }
        proof {
            // what is left of the row lies past the transform's columns
            assert forall|j: int| row_start + d <= j < row_start + row_len implies #[trigger] dst@[j]
                == warped_byte(
                lut@,
                src@,
                src_stride as int,
                src_w as int,
                src_h as int,
                old(dst)@,
                dst_stride as int,
                dst_w as int,
                dst_h as int,
                channels as int,
                j,
            ) by {
                let within = j - row_start;
                lemma_fundamental_div_mod_converse(j, dst_stride as int, row as int, within);
                assert(dst_x == dst_w);
                assert(d == dst_w * channels);
                let px = within / (channels as int);
                assert(px >= dst_w) by {
                    vstd::arithmetic::div_mod::lemma_div_is_ordered(
                        dst_w * channels,
                        within,
                        channels as int,
                    );
                    lemma_fundamental_div_mod_converse(
                        dst_w * channels,
                        channels as int,
                        dst_w as int,
                        0,
                    );
                }
            }
            assert((row + 1) * dst_stride == row * dst_stride + dst_stride) by (nonlinear_arith);
        }
        row_start = row_start + row_len;
        row += 1;
    }
    proof {
        // rows past the transform's keep their bytes
        assert forall|j: int| row_start <= j < dst_len implies #[trigger] dst@[j] == warped_byte(
            lut@,
            src@,
            src_stride as int,
            src_w as int,
            src_h as int,
            old(dst)@,
            dst_stride as int,
            dst_w as int,
            dst_h as int,
            channels as int,
            j,
        ) by {
            assert(row == dst_h);
            assert(row_start == dst_h * dst_stride);
            vstd::arithmetic::div_mod::lemma_div_is_ordered(dst_h * dst_stride, j, dst_stride as int);
            lemma_fundamental_div_mod_converse(dst_h * dst_stride, dst_stride as int, dst_h as int, 0);
        }
    }
}

/// Byte `c` of pixel `(x, y)` lies inside a tightly packed image, at
/// `y` rows and `x` pixels from its start.
proof fn lemma_packed_index(x: int, y: int, c: int, w: int, h: int, channels: int)
    requires
        0 <= x < w,
        0 <= y < h,
        0 <= c < channels,
    ensures
        y * (w * channels) + x * channels + c == (y * w + x) * channels + c,
        0 <= (y * w + x) * channels + c < w * h * channels,
        0 <= y * w + x < w * h,
{
    assert(y * (w * channels) + x * channels + c == (y * w + x) * channels + c) by (nonlinear_arith);
    assert(0 <= y * w + x < w * h) by (nonlinear_arith)
        requires
            0 <= x < w,
            0 <= y < h,
    ;
    assert(0 <= (y * w + x) * channels + c < w * h * channels) by (nonlinear_arith)
        requires
            0 <= y * w + x < w * h,
            0 <= c < channels,
    ;
}

/// A picture of one colour stays that colour under any table: where
/// every pixel of a tightly packed source is `colour`, every pixel of a
/// tightly packed destination is `colour` after the warp, whatever source
/// pixels the table names.
pub proof fn lemma_solid_image_stays_solid(
    lut: Seq<SourcePixel>,
    src: Seq<u8>,
    src_w: int,
    src_h: int,
    before: Seq<u8>,
    dst_w: int,
    dst_h: int,
    channels: int,
    colour: Seq<u8>,
)
    requires
        src_w >= 1,
        src_h >= 1,
        dst_w >= 1,
        dst_h >= 0,
        channels >= 1,
        colour.len() == channels,
        src.len() == src_w * src_h * channels,
        forall|k: int| 0 <= k < src.len() ==> #[trigger] src[k] == colour[k % channels],
        before.len() == dst_w * dst_h * channels,
    ensures
        forall|j: int|
            0 <= j < before.len() ==> #[trigger] warped_byte(
                lut,
                src,
                src_w * channels,
                src_w,
                src_h,
                before,
                dst_w * channels,
                dst_w,
                dst_h,
                channels,
                j,
            ) == colour[j % channels],
{
    assert forall|j: int| 0 <= j < before.len() implies #[trigger] warped_byte(
        lut,
        src,
        src_w * channels,
        src_w,
        src_h,
        before,
        dst_w * channels,
        dst_w,
        dst_h,
        channels,
        j,
    ) == colour[j % channels] by {
        let dst_stride = dst_w * channels;
        assert(dst_stride >= 1) by (nonlinear_arith)
            requires
                dst_w >= 1,
                channels >= 1,
                dst_stride == dst_w * channels,
        ;
        let row = j / dst_stride;
        let within = j % dst_stride;
        vstd::arithmetic::div_mod::lemma_fundamental_div_mod(j, dst_stride);
        vstd::arithmetic::div_mod::lemma_mod_pos_bound(j, dst_stride);
        assert(0 <= within < dst_stride);
        assert(row >= 0) by {
            vstd::arithmetic::div_mod::lemma_div_pos_is_pos(j, dst_stride);
        }
        assert(row < dst_h) by {
            assert(dst_w * dst_h * channels == dst_h * dst_stride) by (nonlinear_arith)
                requires
                    dst_stride == dst_w * channels,
            ;
            if row >= dst_h {
                assert(dst_stride * row >= dst_stride * dst_h) by (nonlinear_arith)
                    requires
                        row >= dst_h,
                        dst_stride >= 1,
                ;
                assert(dst_stride * dst_h == dst_h * dst_stride) by (nonlinear_arith);
            }
        }
        let dst_x = within / channels;
        let c = within % channels;
        vstd::arithmetic::div_mod::lemma_fundamental_div_mod(within, channels);
        vstd::arithmetic::div_mod::lemma_mod_pos_bound(within, channels);
        assert(dst_x >= 0) by {
            vstd::arithmetic::div_mod::lemma_div_pos_is_pos(within, channels);
        }
        assert(dst_x < dst_w) by {
            if dst_x >= dst_w {
                assert(channels * dst_x >= channels * dst_w) by (nonlinear_arith)
                    requires
                        dst_x >= dst_w,
                        channels >= 1,
                ;
                assert(channels * dst_w == dst_w * channels) by (nonlinear_arith);
            }
        }
        // the channel of byte `j` is `c`
        assert(j % channels == c) by {
            assert(j == (row * dst_w + dst_x) * channels + c) by (nonlinear_arith)
                requires
                    j == dst_stride * row + within,
                    within == channels * dst_x + c,
                    dst_stride == dst_w * channels,
            ;
            lemma_fundamental_div_mod_converse(j, channels, row * dst_w + dst_x, c);
        }
        let entry = lut[row * dst_w + dst_x];
        let x = limited(entry.x as int, src_w);
        let y = limited(entry.y as int, src_h);
        let offset = source_offset(entry, src_w, src_h, src_w * channels, channels);
        lemma_packed_index(x, y, c, src_w, src_h, channels);
        assert(offset + c == (y * src_w + x) * channels + c);
        lemma_fundamental_div_mod_converse(offset + c, channels, y * src_w + x, c);
        assert(src[offset + c] == colour[(offset + c) % channels]);
    }
}

} // verus!
