//! The encoder aggregate: target geometry, subsampling configuration, the
//! three channel planes, the three coefficient planes, and the
//! entropy-coded bit buffer.

use vstd::prelude::*;
use crate::bitvec::BitVec;
use crate::dct_quant::DctAlgorithm;
use crate::pixel_matrix::PixelMatrix;

verus! {

/// The three supported chrominance subsampling ratios.
pub open spec fn spec_valid_ratio(r: (u8, u8, u8)) -> bool {
    r == (4u8, 4u8, 4u8) || r == (4u8, 2u8, 2u8) || r == (4u8, 2u8, 0u8)
}

/// The horizontal downsampling factor of a ratio.
pub open spec fn spec_hf(r: (u8, u8, u8)) -> int {
    if r == (4u8, 4u8, 4u8) {
        1
    } else {
        2
    }
}

/// The vertical downsampling factor of a ratio.
pub open spec fn spec_vf(r: (u8, u8, u8)) -> int {
    if r == (4u8, 2u8, 0u8) {
        2
    } else {
        1
    }
}

/// Round `n` up to the next multiple of `m`.
pub open spec fn spec_pad_to_multiple(n: int, m: int) -> int {
    if n % m == 0 {
        n
    } else {
        n + m - n % m
    }
}

/// Rounding up to a multiple adds less than one multiple and divides
/// evenly.
pub proof fn lemma_pad_to_multiple(n: int, m: int)
    requires
        0 <= n,
        1 <= m,
    ensures
        n <= spec_pad_to_multiple(n, m) < n + m,
        spec_pad_to_multiple(n, m) % m == 0,
        0 <= spec_pad_to_multiple(n, m),
{
    vstd::arithmetic::div_mod::lemma_fundamental_div_mod(n, m);
    vstd::arithmetic::div_mod::lemma_mod_bound(n, m);
    let q = n / m;
    let r = n % m;
    if r != 0 {
        assert(n + m - r == (q + 1) * m) by (nonlinear_arith)
            requires
                n == m * q + r,
        ;
        vstd::arithmetic::div_mod::lemma_fundamental_div_mod_converse(n + m - r, m, q + 1, 0);
    }
}

/// Compute `spec_pad_to_multiple` on machine integers.
pub fn pad_to_multiple(n: usize, m: usize) -> (r: usize)
    requires
        1 <= m,
        n + m <= usize::MAX,
    ensures
        r == spec_pad_to_multiple(n as int, m as int),
        r % m == 0,
        n <= r < n + m,
{
    proof {
        lemma_pad_to_multiple(n as int, m as int);
    }
    let rem = n % m;
    if rem == 0 {
        n
    } else {
        n + (m - rem)
    }
}

/// A baseline JPEG encode in progress.
pub struct JpegImage {
    pub path: String,
    pub width: i32,
    pub height: i32,
    pub chrominance_downsampling_ratio: (u8, u8, u8),
    pub dct_algorithm: DctAlgorithm,
    pub y_channel: PixelMatrix<u8>,
    pub cb_channel: PixelMatrix<u8>,
    pub cr_channel: PixelMatrix<u8>,
    pub y_dct_coeffs: PixelMatrix<i16>,
    pub cb_dct_coeffs: PixelMatrix<i16>,
    pub cr_dct_coeffs: PixelMatrix<i16>,
    pub entropy_coded_bits: BitVec,
}

impl JpegImage {
    /// The configuration is one the encoder supports and the logical
    /// dimensions fit the frame header.
    pub open spec fn wf_config(self) -> bool {
        &&& spec_valid_ratio(self.chrominance_downsampling_ratio)
        &&& 1 <= self.width <= 65535
        &&& 1 <= self.height <= 65535
    }

    /// The luminance plane dimensions: the logical width and height padded
    /// to whole MCUs.
    pub open spec fn spec_padded_width(self) -> int {
        spec_pad_to_multiple(self.width as int, 8 * spec_hf(self.chrominance_downsampling_ratio))
    }

    pub open spec fn spec_padded_height(self) -> int {
        spec_pad_to_multiple(self.height as int, 8 * spec_vf(self.chrominance_downsampling_ratio))
    }

    /// The chrominance plane dimensions after downsampling.
    pub open spec fn spec_downsampled_width(self) -> int {
        self.spec_padded_width() / spec_hf(self.chrominance_downsampling_ratio)
    }

    pub open spec fn spec_downsampled_height(self) -> int {
        self.spec_padded_height() / spec_vf(self.chrominance_downsampling_ratio)
    }

    /// The channel planes still hold full-resolution samples (before the
    /// chrominance downsampling).
    pub open spec fn channels_pre_downsampling(self) -> bool {
        &&& self.y_channel.wf()
        &&& self.cb_channel.wf()
        &&& self.cr_channel.wf()
        &&& self.y_channel.width == self.spec_padded_width()
        &&& self.y_channel.height == self.spec_padded_height()
        &&& self.cb_channel.width == self.spec_padded_width()
        &&& self.cb_channel.height == self.spec_padded_height()
        &&& self.cr_channel.width == self.spec_padded_width()
        &&& self.cr_channel.height == self.spec_padded_height()
    }

    /// The chrominance planes hold downsampled samples.
    pub open spec fn channels_downsampled(self) -> bool {
        &&& self.y_channel.wf()
        &&& self.cb_channel.wf()
        &&& self.cr_channel.wf()
        &&& self.y_channel.width == self.spec_padded_width()
        &&& self.y_channel.height == self.spec_padded_height()
        &&& self.cb_channel.width == self.spec_downsampled_width()
        &&& self.cb_channel.height == self.spec_downsampled_height()
        &&& self.cr_channel.width == self.spec_downsampled_width()
        &&& self.cr_channel.height == self.spec_downsampled_height()
    }

    /// The coefficient planes have their final dimensions.
    pub open spec fn coeffs_shape(self) -> bool {
        &&& self.y_dct_coeffs.wf()
        &&& self.cb_dct_coeffs.wf()
        &&& self.cr_dct_coeffs.wf()
        &&& self.y_dct_coeffs.width == self.spec_padded_width()
        &&& self.y_dct_coeffs.height == self.spec_padded_height()
        &&& self.cb_dct_coeffs.width == self.spec_downsampled_width()
        &&& self.cb_dct_coeffs.height == self.spec_downsampled_height()
        &&& self.cr_dct_coeffs.width == self.spec_downsampled_width()
        &&& self.cr_dct_coeffs.height == self.spec_downsampled_height()
    }

    /// A fresh encoder state: channel planes padded to whole MCUs and
    /// filled with zeros, coefficient planes zeroed at their final
    /// dimensions, and an empty bit buffer.
    pub fn new(
        path: String,
        width: i32,
        height: i32,
        chrominance_downsampling_ratio: (u8, u8, u8),
        dct_algorithm: DctAlgorithm,
    ) -> (r: JpegImage)
        requires
            spec_valid_ratio(chrominance_downsampling_ratio),
            1 <= width <= 65535,
            1 <= height <= 65535,
            (width + 16) * (height + 16) <= usize::MAX,
        ensures
            r.path == path,
            r.width == width,
            r.height == height,
            r.chrominance_downsampling_ratio == chrominance_downsampling_ratio,
            r.dct_algorithm == dct_algorithm,
            r.wf_config(),
            r.channels_pre_downsampling(),
            r.coeffs_shape(),
            forall|k: int|
                0 <= k < r.y_channel.pixels@.len() ==> #[trigger] r.y_channel.pixels@[k] == 0,
            forall|k: int|
                0 <= k < r.cb_channel.pixels@.len() ==> #[trigger] r.cb_channel.pixels@[k] == 0,
            forall|k: int|
                0 <= k < r.cr_channel.pixels@.len() ==> #[trigger] r.cr_channel.pixels@[k] == 0,
            forall|k: int|
                0 <= k < r.y_dct_coeffs.pixels@.len() ==> #[trigger] r.y_dct_coeffs.pixels@[k]
                    == 0,
            forall|k: int|
                0 <= k < r.cb_dct_coeffs.pixels@.len() ==> #[trigger] r.cb_dct_coeffs.pixels@[k]
                    == 0,
            forall|k: int|
                0 <= k < r.cr_dct_coeffs.pixels@.len() ==> #[trigger] r.cr_dct_coeffs.pixels@[k]
                    == 0,
            r.entropy_coded_bits@ == Seq::<bool>::empty(),
    {
        let (horizontal_downsampling, vertical_downsampling) = Self::get_downsampling_factor(
            chrominance_downsampling_ratio,
        );
        let w = width as usize;
        let h = height as usize;
        let padded_width = pad_to_multiple(w, 8 * horizontal_downsampling);
        let padded_height = pad_to_multiple(h, 8 * vertical_downsampling);
        let downsampled_width = padded_width / horizontal_downsampling;
        let downsampled_height = padded_height / vertical_downsampling;
        proof {
            assert(padded_width * padded_height <= (width + 16) * (height + 16))
                by (nonlinear_arith)
                requires
                    0 <= padded_width <= width + 16 && 0 <= padded_height <= height + 16,
            ;
            vstd::arithmetic::div_mod::lemma_div_is_ordered(
                downsampled_width as int,
                padded_width as int,
                1,
            );
            vstd::arithmetic::div_mod::lemma_div_is_ordered(
                downsampled_height as int,
                padded_height as int,
                1,
            );
            assert(downsampled_width <= padded_width) by {
                vstd::arithmetic::div_mod::lemma_div_is_ordered_by_denominator(
                    padded_width as int,
                    1,
                    horizontal_downsampling as int,
                );
            }
            assert(downsampled_height <= padded_height) by {
                vstd::arithmetic::div_mod::lemma_div_is_ordered_by_denominator(
                    padded_height as int,
                    1,
                    vertical_downsampling as int,
                );
            }
            assert(downsampled_width * downsampled_height <= padded_width * padded_height)
                by (nonlinear_arith)
                requires
                    0 <= downsampled_width <= padded_width && 0 <= downsampled_height
                        <= padded_height,
            ;
        }

        let y_channel = PixelMatrix::<u8>::new_with_default(padded_width, padded_height);
        let cb_channel = PixelMatrix::<u8>::new_with_default(padded_width, padded_height);
        let cr_channel = PixelMatrix::<u8>::new_with_default(padded_width, padded_height);
        let y_dct_coeffs = PixelMatrix::<i16>::new_with_default(padded_width, padded_height);
        let cb_dct_coeffs = PixelMatrix::<i16>::new_with_default(
            downsampled_width,
            downsampled_height,
        );
        let cr_dct_coeffs = PixelMatrix::<i16>::new_with_default(
            downsampled_width,
            downsampled_height,
        );
        let image = JpegImage {
            path,
            width,
            height,
            chrominance_downsampling_ratio,
            dct_algorithm,
            y_channel,
            cb_channel,
            cr_channel,
            y_dct_coeffs,
            cb_dct_coeffs,
            cr_dct_coeffs,
            entropy_coded_bits: BitVec::new(),
        };
        proof {
            lemma_zeroed_u8(image.y_channel);
            lemma_zeroed_u8(image.cb_channel);
            lemma_zeroed_u8(image.cr_channel);
            lemma_zeroed_i16(image.y_dct_coeffs);
            lemma_zeroed_i16(image.cb_dct_coeffs);
            lemma_zeroed_i16(image.cr_dct_coeffs);
        }
        image
    }
}

/// A plane built from copies of the default byte holds only zeros.
proof fn lemma_zeroed_u8(m: PixelMatrix<u8>)
    requires
        exists|d: u8|
            call_ensures(u8::default, (), d) && m.pixels@ == Seq::new(
                (m.width * m.height) as nat,
                |i: int| d,
            ),
    ensures
        forall|k: int| 0 <= k < m.pixels@.len() ==> #[trigger] m.pixels@[k] == 0,
{
    let d = choose|d: u8|
        call_ensures(u8::default, (), d) && m.pixels@ == Seq::new(
            (m.width * m.height) as nat,
            |i: int| d,
        );
    assert(d == 0);
}

/// A plane built from copies of the default 16-bit value holds only zeros.
proof fn lemma_zeroed_i16(m: PixelMatrix<i16>)
    requires
        exists|d: i16|
            call_ensures(i16::default, (), d) && m.pixels@ == Seq::new(
                (m.width * m.height) as nat,
                |i: int| d,
            ),
    ensures
        forall|k: int| 0 <= k < m.pixels@.len() ==> #[trigger] m.pixels@[k] == 0,
{
    let d = choose|d: i16|
        call_ensures(i16::default, (), d) && m.pixels@ == Seq::new(
            (m.width * m.height) as nat,
            |i: int| d,
        );
    assert(d == 0);
}

impl JpegImage {
    /// Build an encoder state from a decoded BMP: every pixel of the
    /// top-down RGB grid is converted to YCbCr and stored at its position
    /// in the padded channel planes; the padding samples stay zero.
    pub fn from_bmp(
        bmp_image: &crate::bmp_image::BmpImage,
        jpeg_path: String,
        chrominance_downsampling_ratio: (u8, u8, u8),
        dct_algorithm: DctAlgorithm,
    ) -> (r: JpegImage)
        requires
            bmp_image.wf_header(),
            bmp_image.pixels.wf(),
            bmp_image.pixels.width == bmp_image.width,
            bmp_image.pixels.height == bmp_image.height,
            spec_valid_ratio(chrominance_downsampling_ratio),
            (bmp_image.width + 16) * (bmp_image.height + 16) <= usize::MAX,
        ensures
            r.path == jpeg_path,
            r.width == bmp_image.width,
            r.height == bmp_image.height,
            r.chrominance_downsampling_ratio == chrominance_downsampling_ratio,
            r.dct_algorithm == dct_algorithm,
            r.wf_config(),
            r.channels_pre_downsampling(),
            r.coeffs_shape(),
            r.entropy_coded_bits@ == Seq::<bool>::empty(),
            forall|k: int|
                0 <= k < r.y_dct_coeffs.pixels@.len() ==> #[trigger] r.y_dct_coeffs.pixels@[k]
                    == 0,
            forall|k: int|
                0 <= k < r.cb_dct_coeffs.pixels@.len() ==> #[trigger] r.cb_dct_coeffs.pixels@[k]
                    == 0,
            forall|k: int|
                0 <= k < r.cr_dct_coeffs.pixels@.len() ==> #[trigger] r.cr_dct_coeffs.pixels@[k]
                    == 0,
            forall|a: int, b: int|
                0 <= a < r.spec_padded_height() && 0 <= b < r.spec_padded_width()
                    ==> #[trigger] r.y_channel.pixels@[a * r.spec_padded_width() + b] == (if a
                    < bmp_image.height && b < bmp_image.width {
                    crate::colorspace::spec_y(
                        bmp_image.pixels.pixels@[a * (bmp_image.width as int) + b].0 as int,
                        bmp_image.pixels.pixels@[a * (bmp_image.width as int) + b].1 as int,
                        bmp_image.pixels.pixels@[a * (bmp_image.width as int) + b].2 as int,
                    )
                } else {
                    0
                }),
            forall|a: int, b: int|
                0 <= a < r.spec_padded_height() && 0 <= b < r.spec_padded_width()
                    ==> #[trigger] r.cb_channel.pixels@[a * r.spec_padded_width() + b] == (if a
                    < bmp_image.height && b < bmp_image.width {
                    crate::colorspace::spec_cb(
                        bmp_image.pixels.pixels@[a * (bmp_image.width as int) + b].0 as int,
                        bmp_image.pixels.pixels@[a * (bmp_image.width as int) + b].1 as int,
                        bmp_image.pixels.pixels@[a * (bmp_image.width as int) + b].2 as int,
                    )
                } else {
                    0
                }),
            forall|a: int, b: int|
                0 <= a < r.spec_padded_height() && 0 <= b < r.spec_padded_width()
                    ==> #[trigger] r.cr_channel.pixels@[a * r.spec_padded_width() + b] == (if a
                    < bmp_image.height && b < bmp_image.width {
                    crate::colorspace::spec_cr(
                        bmp_image.pixels.pixels@[a * (bmp_image.width as int) + b].0 as int,
                        bmp_image.pixels.pixels@[a * (bmp_image.width as int) + b].1 as int,
                        bmp_image.pixels.pixels@[a * (bmp_image.width as int) + b].2 as int,
                    )
                } else {
                    0
                }),
    {
        let mut image = JpegImage::new(
            jpeg_path,
            bmp_image.width,
            bmp_image.height,
            chrominance_downsampling_ratio,
            dct_algorithm,
        );
        let w = bmp_image.width as usize;
        let h = bmp_image.height as usize;
        let pw = image.y_channel.width;
        let ph = image.y_channel.height;
        let ghost bmp = bmp_image.pixels.pixels@;
        proof {
            lemma_pad_to_multiple(
                image.width as int,
                8 * spec_hf(image.chrominance_downsampling_ratio),
            );
            lemma_pad_to_multiple(
                image.height as int,
                8 * spec_vf(image.chrominance_downsampling_ratio),
            );
            assert forall|a: int, b: int| 0 <= a < ph && 0 <= b < pw implies
                #[trigger] image.y_channel.pixels@[a * (pw as int) + b] == 0 by {
                crate::pixel_matrix::lemma_index_in_plane(a, b, pw as int, ph as int);
            }
            assert forall|a: int, b: int| 0 <= a < ph && 0 <= b < pw implies
                #[trigger] image.cb_channel.pixels@[a * (pw as int) + b] == 0 by {
                crate::pixel_matrix::lemma_index_in_plane(a, b, pw as int, ph as int);
            }
            assert forall|a: int, b: int| 0 <= a < ph && 0 <= b < pw implies
                #[trigger] image.cr_channel.pixels@[a * (pw as int) + b] == 0 by {
                crate::pixel_matrix::lemma_index_in_plane(a, b, pw as int, ph as int);
            }
        }
        let mut i: usize = 0;
        while i < h
            invariant
                bmp_image.wf_header(),
                bmp_image.pixels.wf(),
                bmp_image.pixels.width == bmp_image.width,
                bmp_image.pixels.height == bmp_image.height,
                bmp == bmp_image.pixels.pixels@,
                w == bmp_image.width,
                h == bmp_image.height,
                image.width == bmp_image.width,
                image.height == bmp_image.height,
                image.path == jpeg_path,
                                image.chrominance_downsampling_ratio == chrominance_downsampling_ratio,
                image.dct_algorithm == dct_algorithm,
                image.entropy_coded_bits@ == Seq::<bool>::empty(),
                forall|k: int|
                    0 <= k < image.y_dct_coeffs.pixels@.len()
                        ==> #[trigger] image.y_dct_coeffs.pixels@[k] == 0,
                forall|k: int|
                    0 <= k < image.cb_dct_coeffs.pixels@.len()
                        ==> #[trigger] image.cb_dct_coeffs.pixels@[k] == 0,
                forall|k: int|
                    0 <= k < image.cr_dct_coeffs.pixels@.len()
                        ==> #[trigger] image.cr_dct_coeffs.pixels@[k] == 0,
                image.wf_config(),
                image.channels_pre_downsampling(),
                image.coeffs_shape(),
                pw == image.spec_padded_width(),
                ph == image.spec_padded_height(),
                w <= pw,
                h <= ph,
                i <= h,
                forall|a: int, b: int|
                    0 <= a < ph && 0 <= b < pw ==> #[trigger] image.y_channel.pixels@[a * (
                    pw as int) + b] == (if a < h && b < w && a < i {
                        crate::colorspace::spec_y(
                            bmp[a * (w as int) + b].0 as int,
                            bmp[a * (w as int) + b].1 as int,
                            bmp[a * (w as int) + b].2 as int,
                        )
                    } else {
                        0
                    }),
                forall|a: int, b: int|
                    0 <= a < ph && 0 <= b < pw ==> #[trigger] image.cb_channel.pixels@[a * (
                    pw as int) + b] == (if a < h && b < w && a < i {
                        crate::colorspace::spec_cb(
                            bmp[a * (w as int) + b].0 as int,
                            bmp[a * (w as int) + b].1 as int,
                            bmp[a * (w as int) + b].2 as int,
                        )
                    } else {
                        0
                    }),
                forall|a: int, b: int|
                    0 <= a < ph && 0 <= b < pw ==> #[trigger] image.cr_channel.pixels@[a * (
                    pw as int) + b] == (if a < h && b < w && a < i {
                        crate::colorspace::spec_cr(
                            bmp[a * (w as int) + b].0 as int,
                            bmp[a * (w as int) + b].1 as int,
                            bmp[a * (w as int) + b].2 as int,
                        )
                    } else {
                        0
                    }),
            decreases h - i,
        {
            let mut j: usize = 0;
            while j < w
                invariant
                    bmp_image.wf_header(),
                    bmp_image.pixels.wf(),
                    bmp_image.pixels.width == bmp_image.width,
                    bmp_image.pixels.height == bmp_image.height,
                    bmp == bmp_image.pixels.pixels@,
                    w == bmp_image.width,
                    h == bmp_image.height,
                    image.width == bmp_image.width,
                    image.height == bmp_image.height,
                    image.wf_config(),
                    image.channels_pre_downsampling(),
                    image.coeffs_shape(),
                    pw == image.spec_padded_width(),
                    ph == image.spec_padded_height(),
                    w <= pw,
                    h <= ph,
                    i < h,
                    j <= w,
                    image.path == jpeg_path,
                                        image.chrominance_downsampling_ratio == chrominance_downsampling_ratio,
                    image.dct_algorithm == dct_algorithm,
                    image.entropy_coded_bits@ == Seq::<bool>::empty(),
                    forall|k: int|
                        0 <= k < image.y_dct_coeffs.pixels@.len()
                            ==> #[trigger] image.y_dct_coeffs.pixels@[k] == 0,
                    forall|k: int|
                        0 <= k < image.cb_dct_coeffs.pixels@.len()
                            ==> #[trigger] image.cb_dct_coeffs.pixels@[k] == 0,
                    forall|k: int|
                        0 <= k < image.cr_dct_coeffs.pixels@.len()
                            ==> #[trigger] image.cr_dct_coeffs.pixels@[k] == 0,
                    forall|a: int, b: int|
                        0 <= a < ph && 0 <= b < pw ==> #[trigger] image.y_channel.pixels@[a * (
                        pw as int) + b] == (if a < h && b < w && (a < i || (a == i && b < j)) {
                            crate::colorspace::spec_y(
                                bmp[a * (w as int) + b].0 as int,
                                bmp[a * (w as int) + b].1 as int,
                                bmp[a * (w as int) + b].2 as int,
                            )
                        } else {
                            0
                        }),
                    forall|a: int, b: int|
                        0 <= a < ph && 0 <= b < pw ==> #[trigger] image.cb_channel.pixels@[a * (
                        pw as int) + b] == (if a < h && b < w && (a < i || (a == i && b < j)) {
                            crate::colorspace::spec_cb(
                                bmp[a * (w as int) + b].0 as int,
                                bmp[a * (w as int) + b].1 as int,
                                bmp[a * (w as int) + b].2 as int,
                            )
                        } else {
                            0
                        }),
                    forall|a: int, b: int|
                        0 <= a < ph && 0 <= b < pw ==> #[trigger] image.cr_channel.pixels@[a * (
                        pw as int) + b] == (if a < h && b < w && (a < i || (a == i && b < j)) {
                            crate::colorspace::spec_cr(
                                bmp[a * (w as int) + b].0 as int,
                                bmp[a * (w as int) + b].1 as int,
                                bmp[a * (w as int) + b].2 as int,
                            )
                        } else {
                            0
                        }),
                decreases w - j,
            {
                let rgb_pixel = bmp_image.pixels.get_pixel(i, j);
                match rgb_pixel {
                    Some(rgb) => {
                        let ycbcr = crate::colorspace::rgb_to_ycbcr(rgb);
                        let ghost pre_y = image.y_channel.pixels@;
                        let ghost pre_cb = image.cb_channel.pixels@;
                        let ghost pre_cr = image.cr_channel.pixels@;
                        image.y_channel.set_pixel(i, j, ycbcr.0);
                        image.cb_channel.set_pixel(i, j, ycbcr.1);
                        image.cr_channel.set_pixel(i, j, ycbcr.2);
                        proof {
                            lemma_from_bmp_step(
                                pre_y,
                                image.y_channel.pixels@,
                                pw as int,
                                ph as int,
                                i as int,
                                j as int,
                                ycbcr.0,
                            );
                            lemma_from_bmp_step(
                                pre_cb,
                                image.cb_channel.pixels@,
                                pw as int,
                                ph as int,
                                i as int,
                                j as int,
                                ycbcr.1,
                            );
                            lemma_from_bmp_step(
                                pre_cr,
                                image.cr_channel.pixels@,
                                pw as int,
                                ph as int,
                                i as int,
                                j as int,
                                ycbcr.2,
                            );
                        }
                    },
                    None => {},
                }
                j = j + 1;
            }
            i = i + 1;
        }
        image
    }
}

/// Updating one cell of a plane changes exactly that cell: any other
/// in-range position has a different flat index.
proof fn lemma_from_bmp_step(
    pre: Seq<u8>,
    post: Seq<u8>,
    pw: int,
    ph: int,
    i: int,
    j: int,
    v: u8,
)
    requires
        0 <= i < ph,
        0 <= j < pw,
        pre.len() == pw * ph,
        post == pre.update(i * pw + j, v),
    ensures
        post.len() == pre.len(),
        post[i * pw + j] == v,
        forall|a: int, b: int|
            0 <= a < ph && 0 <= b < pw && (a != i || b != j) ==> #[trigger] post[a * pw + b]
                == pre[a * pw + b],
{
    crate::pixel_matrix::lemma_index_in_plane(i, j, pw, ph);
    assert forall|a: int, b: int|
        0 <= a < ph && 0 <= b < pw && (a != i || b != j) implies #[trigger] post[a * pw + b]
        == pre[a * pw + b] by {
        crate::pixel_matrix::lemma_index_in_plane(a, b, pw, ph);
        if a * pw + b == i * pw + j {
            vstd::arithmetic::div_mod::lemma_fundamental_div_mod_converse(a * pw + b, pw, a, b);
            vstd::arithmetic::div_mod::lemma_fundamental_div_mod_converse(i * pw + j, pw, i, j);
            assert(a == i && b == j);
        }
    }
}

} // verus!
