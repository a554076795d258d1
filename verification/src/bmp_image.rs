//! Decoding of 24-bit uncompressed Windows BMP data: the header fields at
//! their fixed offsets, and the bottom-up, BGR, 4-byte-row-padded pixel
//! array turned into a top-down RGB grid.

use vstd::prelude::*;
use byteorder::ByteOrder;
use crate::colorspace::RGBValue;
use crate::pixel_matrix::{spec_div_ceil, div_ceil_exec, PixelMatrix};
use crate::JpegError;

verus! {

/// The byte at `i`, or zero past the end, as a short read leaves the
/// destination buffer.
pub open spec fn spec_byte_or_zero(data: Seq<u8>, i: int) -> u8 {
    if 0 <= i < data.len() {
        data[i]
    } else {
        0
    }
}

/// The little-endian 32-bit value at offset `off`.
pub open spec fn spec_le_u32(data: Seq<u8>, off: int) -> int {
    spec_byte_or_zero(data, off) + 0x100 * spec_byte_or_zero(data, off + 1) + 0x1_0000
        * spec_byte_or_zero(data, off + 2) + 0x100_0000 * spec_byte_or_zero(data, off + 3)
}

/// The little-endian 32-bit value at offset `off`, read as a signed
/// two's-complement number.
pub open spec fn spec_le_i32(data: Seq<u8>, off: int) -> int {
    let n = spec_le_u32(data, off);
    if n < 0x8000_0000 {
        n
    } else {
        n - 0x1_0000_0000
    }
}

/// Relies on byteorder's `LittleEndian::read_u32`: the little-endian
/// 32-bit value of the first four bytes of the buffer.
#[verifier::external_body]
fn le_read_u32(buf: &[u8; 4]) -> (r: u32)
    ensures
        r == buf@[0] + 0x100 * buf@[1] + 0x1_0000 * buf@[2] + 0x100_0000 * buf@[3],
{
    byteorder::LittleEndian::read_u32(buf)
}

/// Relies on byteorder's `LittleEndian::read_i32`: the little-endian
/// 32-bit value of the first four bytes of the buffer, reinterpreted as a
/// signed two's-complement number.
#[verifier::external_body]
fn le_read_i32(buf: &[u8; 4]) -> (r: i32)
    ensures
        r as int == ({
            let n = buf@[0] + 0x100 * buf@[1] + 0x1_0000 * buf@[2] + 0x100_0000 * buf@[3];
            if n < 0x8000_0000 {
                n
            } else {
                n - 0x1_0000_0000
            }
        }),
{
    byteorder::LittleEndian::read_i32(buf)
}

/// Read the byte at `i`, or zero past the end.
fn byte_or_zero(data: &Vec<u8>, i: usize) -> (r: u8)
    ensures
        r == spec_byte_or_zero(data@, i as int),
{
    if i < data.len() {
        data[i]
    } else {
        0
    }
}

/// Read the byte at a wide offset, or zero past the end; offsets beyond
/// the data always read as zero, however large.
fn byte_or_zero_wide(data: &Vec<u8>, i: u64) -> (r: u8)
    ensures
        r == spec_byte_or_zero(data@, i as int),
{
    if i < data.len() as u64 {
        data[i as usize]
    } else {
        0
    }
}

/// Gather the four bytes at `off` (zero-filled past the end) into a
/// buffer.
fn four_bytes_at(data: &Vec<u8>, off: usize) -> (r: [u8; 4])
    requires
        off + 4 <= usize::MAX,
    ensures
        r@[0] == spec_byte_or_zero(data@, off as int),
        r@[1] == spec_byte_or_zero(data@, off as int + 1),
        r@[2] == spec_byte_or_zero(data@, off as int + 2),
        r@[3] == spec_byte_or_zero(data@, off as int + 3),
{
    [
        byte_or_zero(data, off),
        byte_or_zero(data, off + 1),
        byte_or_zero(data, off + 2),
        byte_or_zero(data, off + 3),
    ]
}

/// A decoded BMP: its header geometry and, after `load_pixels`, a
/// top-down, row-major RGB grid.
pub struct BmpImage {
    pub width: i32,
    pub height: i32,
    pub image_data_offset: u32,
    pub pixels: PixelMatrix<RGBValue>,
}

/// The stride of one stored BMP row: three bytes per pixel, padded to a
/// multiple of four.
pub open spec fn spec_bmp_stride(width: int) -> int {
    4 * spec_div_ceil(3 * width, 4)
}

/// The RGB pixel at `(row, col)` of the top-down grid: BMP stores rows
/// bottom-up and samples in BGR order.
pub open spec fn spec_bmp_pixel(data: Seq<u8>, off: int, w: int, h: int, row: int, col: int) -> (
    u8,
    u8,
    u8,
) {
    let base = off + (h - 1 - row) * spec_bmp_stride(w) + 3 * col;
    (
        spec_byte_or_zero(data, base + 2),
        spec_byte_or_zero(data, base + 1),
        spec_byte_or_zero(data, base),
    )
}

impl BmpImage {
    /// The header was read and the dimensions are ones the encoder can
    /// frame.
    pub open spec fn wf_header(self) -> bool {
        &&& 1 <= self.width <= 65535
        &&& 1 <= self.height <= 65535
    }

    /// Parse the fixed header fields of a BMP byte stream: the pixel-array
    /// offset and the signed dimensions. Dimensions outside the encoder's
    /// frame range are an invalid input.
    pub fn new(data: &Vec<u8>) -> (r: Result<BmpImage, JpegError>)
        ensures
            (r is Ok) == (1 <= spec_le_i32(data@, 18) <= 65535 && 1 <= spec_le_i32(data@, 22)
                <= 65535),
            r is Ok ==> {
                let b = r->Ok_0;
                &&& b.width == spec_le_i32(data@, 18)
                &&& b.height == spec_le_i32(data@, 22)
                &&& b.image_data_offset == spec_le_u32(data@, 10)
                &&& b.wf_header()
                &&& b.pixels.width == b.width
                &&& b.pixels.height == b.height
                &&& b.pixels.pixels@ == Seq::<RGBValue>::empty()
            },
            r is Err ==> r == Err::<BmpImage, JpegError>(JpegError::InvalidInput),
    {
        let offset_buf = four_bytes_at(data, 10);
        let image_data_offset = le_read_u32(&offset_buf);
        let width_buf = four_bytes_at(data, 18);
        let width = le_read_i32(&width_buf);
        let height_buf = four_bytes_at(data, 22);
        let height = le_read_i32(&height_buf);
        if width < 1 || width > 65535 || height < 1 || height > 65535 {
            return Err(JpegError::InvalidInput);
        }
        proof {
            assert((width as usize) * (height as usize) <= 65535 * 65535) by (nonlinear_arith)
                requires
                    1 <= width <= 65535 && 1 <= height <= 65535,
            ;
        }
        let pixels = PixelMatrix::<RGBValue>::new(width as usize, height as usize);
        Ok(BmpImage { width, height, image_data_offset, pixels })
    }

    /// Decode the pixel array into the top-down RGB grid: BMP rows run
    /// bottom to top, samples in BGR order, each stored row padded to four
    /// bytes; bytes past the end of the data read as zero, as a short read
    /// leaves them.
    pub fn load_pixels(&mut self, data: &Vec<u8>)
        requires
            old(self).wf_header(),
            old(self).pixels.width == old(self).width,
            old(self).pixels.height == old(self).height,
            old(self).pixels.pixels@ == Seq::<RGBValue>::empty(),
        ensures
            final(self).width == old(self).width,
            final(self).height == old(self).height,
            final(self).image_data_offset == old(self).image_data_offset,
            final(self).pixels.width == old(self).width,
            final(self).pixels.height == old(self).height,
            final(self).pixels.wf(),
            forall|row: int, col: int|
                0 <= row < old(self).height && 0 <= col < old(self).width ==> #[trigger] final(self).pixels.pixels@[row * (old(self).width as int) + col] == spec_bmp_pixel(
                    data@,
                    old(self).image_data_offset as int,
                    old(self).width as int,
                    old(self).height as int,
                    row,
                    col,
                ),
    {
        let w = self.width as usize;
        let h = self.height as usize;
        let off: u64 = self.image_data_offset as u64;
        let stride_usize = 4 * div_ceil_exec(3 * w, 4);
        proof {
            assert(stride_usize == spec_bmp_stride(w as int));
            assert(3 * w <= stride_usize <= 3 * w + 3) by (nonlinear_arith)
                requires
                    stride_usize == 4 * spec_div_ceil(3 * (w as int), 4) && 4 * spec_div_ceil(
                        3 * (w as int),
                        4,
                    ) < 3 * (w as int) + 4 && 3 * (w as int) <= 4 * spec_div_ceil(
                        3 * (w as int),
                        4,
                    ),
            ;
        }
        let stride: u64 = stride_usize as u64;
        let mut row: usize = 0;
        while row < h
            invariant
                w == self.width,
                h == self.height,
                1 <= w <= 65535,
                1 <= h <= 65535,
                off == self.image_data_offset,
                self.width == old(self).width,
                self.height == old(self).height,
                self.image_data_offset == old(self).image_data_offset,
                self.pixels.width == w,
                self.pixels.height == h,
                stride == spec_bmp_stride(w as int),
                3 * w <= stride <= 3 * w + 3,
                row <= h,
                self.pixels.pixels@.len() == row * w,
                forall|r2: int, c2: int|
                    0 <= r2 < row && 0 <= c2 < w ==> #[trigger] self.pixels.pixels@[r2 * (w as int)
                        + c2] == spec_bmp_pixel(
                        data@,
                        off as int,
                        w as int,
                        h as int,
                        r2,
                        c2,
                    ),
            decreases h - row,
        {
            proof {
                assert((h - 1 - row) * stride <= 65535 * (3 * 65535 + 3) && 0 <= (h - 1 - row)
                    * stride) by (nonlinear_arith)
                    requires
                        0 <= row < h <= 65535 && 0 <= stride <= 3 * 65535 + 3,
                ;
            }
            let row_base: u64 = off + ((h - 1 - row) as u64) * stride;
            let mut col: usize = 0;
            while col < w
                invariant
                    w == self.width,
                    h == self.height,
                    1 <= w <= 65535,
                    1 <= h <= 65535,
                    off == self.image_data_offset,
                    self.width == old(self).width,
                    self.height == old(self).height,
                    self.image_data_offset == old(self).image_data_offset,
                    self.pixels.width == w,
                    self.pixels.height == h,
                    stride == spec_bmp_stride(w as int),
                    3 * w <= stride <= 3 * w + 3,
                    row < h,
                    col <= w,
                    row_base == off + (h - 1 - row as int) * stride,
                    row_base <= 0x1_0000_0000 + 65535 * (3 * 65535 + 3),
                    self.pixels.pixels@.len() == row * w + col,
                    forall|r2: int, c2: int|
                        0 <= r2 < row && 0 <= c2 < w ==> #[trigger] self.pixels.pixels@[r2 * (
                        w as int) + c2] == spec_bmp_pixel(
                            data@,
                            off as int,
                            w as int,
                            h as int,
                            r2,
                            c2,
                        ),
                    forall|c2: int|
                        0 <= c2 < col ==> #[trigger] self.pixels.pixels@[row * (w as int) + c2]
                            == spec_bmp_pixel(
                            data@,
                            off as int,
                            w as int,
                            h as int,
                            row as int,
                            c2,
                        ),
                decreases w - col,
            {
                let base: u64 = row_base + 3 * (col as u64);
                let blue = byte_or_zero_wide(data, base);
                let green = byte_or_zero_wide(data, base + 1);
                let red = byte_or_zero_wide(data, base + 2);
                proof {
                    assert(self.pixels.pixels@.len() < w * h) by (nonlinear_arith)
                        requires
                            self.pixels.pixels@.len() == row * w + col && col < w && row < h && 0
                                <= w,
                    ;
                }
                self.pixels.push_next((red, green, blue));
                proof {
                    assert forall|c2: int|
                        0 <= c2 < col + 1 implies #[trigger] self.pixels.pixels@[row * (w as int)
                        + c2] == spec_bmp_pixel(
                        data@,
                        off as int,
                        w as int,
                        h as int,
                        row as int,
                        c2,
                    ) by {
                        if c2 == col {
                            assert(self.pixels.pixels@[row * (w as int) + c2] == (
                                red,
                                green,
                                blue,
                            ));
                        }
                    }
                    assert forall|r2: int, c2: int|
                        0 <= r2 < row && 0 <= c2 < w implies #[trigger] self.pixels.pixels@[r2 * (
                        w as int) + c2] == spec_bmp_pixel(
                        data@,
                        off as int,
                        w as int,
                        h as int,
                        r2,
                        c2,
                    ) by {
                        assert(r2 * (w as int) + c2 < row * (w as int)) by (nonlinear_arith)
                            requires
                                0 <= r2 < row && 0 <= c2 < w,
                        ;
                    }
                }
                col = col + 1;
            }
            proof {
                assert((row + 1) * w == row * w + w) by (nonlinear_arith);
            }
            row = row + 1;
        }
        proof {
            assert(self.pixels.pixels@.len() == h * w) by (nonlinear_arith)
                requires
                    self.pixels.pixels@.len() == (h as int) * (w as int),
            ;
            assert(self.pixels.wf()) by (nonlinear_arith)
                requires
                    self.pixels.pixels@.len() == (h as int) * (w as int) && self.pixels.width == w
                        && self.pixels.height == h && 1 <= w <= 65535 && 1 <= h <= 65535,
            ;
        }
    }

    /// The number of pixels of the logical grid.
    pub fn pixel_amount(&self) -> (r: i32)
        requires
            self.wf_header(),
            self.width * self.height <= i32::MAX,
        ensures
            r == self.width * self.height,
    {
        self.width * self.height
    }
}

} // verus!
