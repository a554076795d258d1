//! Chrominance downsampling by block averaging.
//!
//! The configured ratio maps to a block size `(hf, vf)`; each
//! non-overlapping `hf x vf` block of a chrominance plane collapses to the
//! arithmetic mean of its samples. 4:4:4 leaves the planes untouched.

use vstd::prelude::*;
use crate::jpeg_image::{spec_hf, spec_pad_to_multiple, spec_valid_ratio, spec_vf, JpegImage};
use crate::pixel_matrix::{lemma_index_in_plane, spec_div_ceil, div_ceil_exec, PixelMatrix};

verus! {

/// The sum of the in-range samples of one block row: cells `c0 + j` to
/// `c0 + hf - 1` of row `row`, counting only columns below `lw`.
pub open spec fn spec_clipped_row_sum(
    p: Seq<u8>,
    w: int,
    row: int,
    c0: int,
    j: int,
    hf: int,
    lw: int,
) -> int
    decreases hf - j,
{
    if j >= hf {
        0
    } else {
        (if c0 + j < lw {
            p[row * w + c0 + j] as int
        } else {
            0
        }) + spec_clipped_row_sum(p, w, row, c0, j + 1, hf, lw)
    }
}

/// How many of the columns `c0 + j` to `c0 + hf - 1` lie below `lw`.
pub open spec fn spec_clipped_row_count(c0: int, j: int, hf: int, lw: int) -> int
    decreases hf - j,
{
    if j >= hf {
        0
    } else {
        (if c0 + j < lw {
            1int
        } else {
            0
        }) + spec_clipped_row_count(c0, j + 1, hf, lw)
    }
}

/// The sum of the in-range samples of the `hf x vf` block whose top-left
/// sample is `(r0, c0)`, from block row `i` on: only rows below `lh` and
/// columns below `lw` count.
pub open spec fn spec_clipped_block_sum(
    p: Seq<u8>,
    w: int,
    r0: int,
    c0: int,
    hf: int,
    vf: int,
    lw: int,
    lh: int,
    i: int,
) -> int
    decreases vf - i,
{
    if i >= vf {
        0
    } else {
        (if r0 + i < lh {
            spec_clipped_row_sum(p, w, r0 + i, c0, 0, hf, lw)
        } else {
            0
        }) + spec_clipped_block_sum(p, w, r0, c0, hf, vf, lw, lh, i + 1)
    }
}

/// How many samples of the block are in range.
pub open spec fn spec_clipped_block_count(
    r0: int,
    c0: int,
    hf: int,
    vf: int,
    lw: int,
    lh: int,
    i: int,
) -> int
    decreases vf - i,
{
    if i >= vf {
        0
    } else {
        (if r0 + i < lh {
            spec_clipped_row_count(c0, 0, hf, lw)
        } else {
            0
        }) + spec_clipped_block_count(r0, c0, hf, vf, lw, lh, i + 1)
    }
}

/// The arithmetic mean of the in-range samples of block `(r, c)` of the
/// `hf x vf` block grid: a partial block at the right or bottom edge
/// averages only the samples that exist, and a block with no in-range
/// sample is padding and reads zero.
pub open spec fn spec_block_avg(
    p: Seq<u8>,
    w: int,
    r: int,
    c: int,
    hf: int,
    vf: int,
    lw: int,
    lh: int,
) -> int {
    let total = spec_clipped_block_sum(p, w, r * vf, c * hf, hf, vf, lw, lh, 0);
    let count = spec_clipped_block_count(r * vf, c * hf, hf, vf, lw, lh, 0);
    if count == 0 {
        0
    } else {
        total / count
    }
}

/// Downsample one plane by `(hf, vf)` block averaging over its logical
/// region: the plane dimensions divide evenly into blocks, and only the
/// samples at rows below `logical_height` and columns below
/// `logical_width` are averaged.
pub fn downsample_plane(
    plane: &PixelMatrix<u8>,
    hf: usize,
    vf: usize,
    logical_width: usize,
    logical_height: usize,
) -> (r: PixelMatrix<u8>)
    requires
        plane.wf(),
        1 <= hf <= 16,
        1 <= vf <= 16,
        plane.width >= 1,
        plane.height >= 1,
        plane.width % hf == 0,
        plane.height % vf == 0,
        logical_width <= plane.width,
        logical_height <= plane.height,
    ensures
        r.wf(),
        r.width == plane.width / hf,
        r.height == plane.height / vf,
        forall|rr: int, cc: int|
            0 <= rr < r.height && 0 <= cc < r.width ==> #[trigger] r.pixels@[rr * (
            plane.width as int / hf as int) + cc] == spec_block_avg(
                plane.pixels@,
                plane.width as int,
                rr,
                cc,
                hf as int,
                vf as int,
                logical_width as int,
                logical_height as int,
            ),
{
    let pw = plane.width;
    let ph = plane.height;
    let lw = logical_width;
    let lh = logical_height;
    let out_w = pw / hf;
    let out_h = ph / vf;
    proof {
        assert(out_w * out_h <= pw * ph) by (nonlinear_arith)
            requires
                out_w <= pw && out_h <= ph && 0 <= out_w && 0 <= ph,
        ;
        assert(pw == hf * (pw as int / hf as int)) by {
            vstd::arithmetic::div_mod::lemma_fundamental_div_mod(pw as int, hf as int);
        }
        assert(ph == vf * (ph as int / vf as int)) by {
            vstd::arithmetic::div_mod::lemma_fundamental_div_mod(ph as int, vf as int);
        }
    }
    let mut out: PixelMatrix<u8> = PixelMatrix::new(out_w, out_h);
    let mut rr: usize = 0;
    while rr < out_h
        invariant
            plane.wf(),
            1 <= hf <= 16,
            1 <= vf <= 16,
            pw == plane.width,
            ph == plane.height,
            lw == logical_width,
            lh == logical_height,
            lw <= pw,
            lh <= ph,
            out_w == pw as int / hf as int,
            out_h == ph as int / vf as int,
            pw == hf * out_w,
            ph == vf * out_h,
            out.width == out_w,
            out.height == out_h,
            rr <= out_h,
            out_w * out_h <= pw * ph,
            out.pixels@.len() == rr * out_w,
            forall|r2: int, c2: int|
                0 <= r2 < rr && 0 <= c2 < out_w ==> #[trigger] out.pixels@[r2 * (out_w as int) + c2]
                    == spec_block_avg(
                    plane.pixels@,
                    pw as int,
                    r2,
                    c2,
                    hf as int,
                    vf as int,
                    lw as int,
                    lh as int,
                ),
        decreases out_h - rr,
    {
        let mut cc: usize = 0;
        proof {
            assert((rr + 1) * out_w == rr * out_w + out_w) by (nonlinear_arith);
            assert(rr * out_w + out_w <= out_h * out_w) by (nonlinear_arith)
                requires
                    rr < out_h && 0 <= out_w,
            ;
        }
        while cc < out_w
            invariant
                plane.wf(),
                1 <= hf <= 16,
                1 <= vf <= 16,
                pw == plane.width,
                ph == plane.height,
                lw == logical_width,
                lh == logical_height,
                lw <= pw,
                lh <= ph,
                out_w == pw as int / hf as int,
                out_h == ph as int / vf as int,
                pw == hf * out_w,
                ph == vf * out_h,
                out.width == out_w,
                out.height == out_h,
                rr < out_h,
                cc <= out_w,
                out.pixels@.len() == rr * out_w + cc,
                rr * out_w + out_w <= out_h * out_w,
                out_w * out_h <= pw * ph,
                forall|r2: int, c2: int|
                    0 <= r2 < rr && 0 <= c2 < out_w ==> #[trigger] out.pixels@[r2 * (out_w as int)
                        + c2] == spec_block_avg(
                        plane.pixels@,
                        pw as int,
                        r2,
                        c2,
                        hf as int,
                        vf as int,
                        lw as int,
                        lh as int,
                    ),
                forall|c2: int|
                    0 <= c2 < cc ==> #[trigger] out.pixels@[rr * (out_w as int) + c2]
                        == spec_block_avg(
                        plane.pixels@,
                        pw as int,
                        rr as int,
                        c2,
                        hf as int,
                        vf as int,
                        lw as int,
                        lh as int,
                    ),
            decreases out_w - cc,
        {
            proof {
                assert(rr * vf + vf <= out_h * vf) by (nonlinear_arith)
                    requires
                        rr < out_h && 0 <= vf,
                ;
                assert(cc * hf + hf <= out_w * hf) by (nonlinear_arith)
                    requires
                        cc < out_w && 0 <= hf,
                ;
                assert(out_h * vf == ph && out_w * hf == pw) by (nonlinear_arith)
                    requires
                        ph == vf * out_h && pw == hf * out_w,
                ;
            }
            let r0 = rr * vf;
            let c0 = cc * hf;
            let mut total: u32 = 0;
            let mut count: u32 = 0;
            let mut i: usize = 0;
            while i < vf
                invariant
                    plane.wf(),
                    1 <= hf <= 16,
                    1 <= vf <= 16,
                    pw == plane.width,
                    ph == plane.height,
                    lw <= pw,
                    lh <= ph,
                    r0 == rr * vf,
                    c0 == cc * hf,
                    r0 + vf <= ph,
                    c0 + hf <= pw,
                    i <= vf,
                    count <= i * hf,
                    total <= 255 * count,
                    total + spec_clipped_block_sum(
                        plane.pixels@,
                        pw as int,
                        r0 as int,
                        c0 as int,
                        hf as int,
                        vf as int,
                        lw as int,
                        lh as int,
                        i as int,
                    ) == spec_clipped_block_sum(
                        plane.pixels@,
                        pw as int,
                        r0 as int,
                        c0 as int,
                        hf as int,
                        vf as int,
                        lw as int,
                        lh as int,
                        0,
                    ),
                    count + spec_clipped_block_count(
                        r0 as int,
                        c0 as int,
                        hf as int,
                        vf as int,
                        lw as int,
                        lh as int,
                        i as int,
                    ) == spec_clipped_block_count(
                        r0 as int,
                        c0 as int,
                        hf as int,
                        vf as int,
                        lw as int,
                        lh as int,
                        0,
                    ),
                decreases vf - i,
            {
                if r0 + i < lh {
                    proof {
                        lemma_index_in_plane(r0 + i as int, c0 as int, pw as int, ph as int);
                        assert((r0 + i) * (pw as int) + c0 + hf <= (pw as int) * (ph as int))
                            by (nonlinear_arith)
                            requires
                                0 <= r0 + i < ph && 0 <= c0 && c0 + hf <= pw && 1 <= pw,
                        ;
                    }
                    let row_base = (r0 + i) * pw + c0;
                    let mut j: usize = 0;
                    while j < hf
                        invariant
                            plane.wf(),
                            1 <= hf <= 16,
                            1 <= vf <= 16,
                            i < vf,
                            pw == plane.width,
                            lw <= pw,
                            r0 + i < lh || false,
                            row_base == (r0 + i as int) * (pw as int) + c0,
                            row_base + hf <= plane.pixels@.len(),
                            j <= hf,
                            count <= i * hf + j,
                            total <= 255 * count,
                            total + spec_clipped_row_sum(
                                plane.pixels@,
                                pw as int,
                                r0 + i as int,
                                c0 as int,
                                j as int,
                                hf as int,
                                lw as int,
                            ) + spec_clipped_block_sum(
                                plane.pixels@,
                                pw as int,
                                r0 as int,
                                c0 as int,
                                hf as int,
                                vf as int,
                                lw as int,
                                lh as int,
                                i as int + 1,
                            ) == spec_clipped_block_sum(
                                plane.pixels@,
                                pw as int,
                                r0 as int,
                                c0 as int,
                                hf as int,
                                vf as int,
                                lw as int,
                                lh as int,
                                0,
                            ),
                            count + spec_clipped_row_count(
                                c0 as int,
                                j as int,
                                hf as int,
                                lw as int,
                            ) + spec_clipped_block_count(
                                r0 as int,
                                c0 as int,
                                hf as int,
                                vf as int,
                                lw as int,
                                lh as int,
                                i as int + 1,
                            ) == spec_clipped_block_count(
                                r0 as int,
                                c0 as int,
                                hf as int,
                                vf as int,
                                lw as int,
                                lh as int,
                                0,
                            ),
                        decreases hf - j,
                    {
                        if c0 + j < lw {
                            let v = plane.pixels[row_base + j];
                            proof {
                                assert((i * hf + j) + 1 <= (i * hf + j + 1)) by (nonlinear_arith);
                                assert(i * hf + j + 1 <= 16 * 16) by (nonlinear_arith)
                                    requires
                                        0 <= i < 16 && 0 <= j < hf <= 16,
                                ;
                            }
                            total = total + (v as u32);
                            count = count + 1;
                        }
                        j = j + 1;
                    }
                    proof {
                        assert((i * hf + hf) <= (i as int + 1) * hf) by (nonlinear_arith);
                    }
                } else {
                    proof {
                        assert(i * hf <= (i as int + 1) * hf) by (nonlinear_arith)
                            requires
                                0 <= hf && 0 <= i,
                        ;
                    }
                }
                i = i + 1;
            }
            let avg: u32 = if count == 0 {
                0
            } else {
                total / count
            };
            proof {
                if count != 0 {
                    vstd::arithmetic::div_mod::lemma_fundamental_div_mod(
                        total as int,
                        count as int,
                    );
                    vstd::arithmetic::div_mod::lemma_mod_bound(total as int, count as int);
                    assert(avg <= 255) by (nonlinear_arith)
                        requires
                            1 <= count && total <= 255 * count && total == count * (avg as int)
                                + total as int % count as int && 0 <= total as int % count as int,
                    ;
                }
                assert(avg == spec_block_avg(
                    plane.pixels@,
                    pw as int,
                    rr as int,
                    cc as int,
                    hf as int,
                    vf as int,
                    lw as int,
                    lh as int,
                ));
                assert(out.pixels@.len() < out.width * out.height) by (nonlinear_arith)
                    requires
                        out.pixels@.len() == rr * out.width + cc && cc < out.width && rr
                            < out.height && 0 <= out.width,
                ;
            }
            out.push_next(avg as u8);
            proof {
                assert forall|r2: int, c2: int|
                    0 <= r2 < rr && 0 <= c2 < out_w implies #[trigger] out.pixels@[r2 * (
                out_w as int) + c2] == spec_block_avg(
                    plane.pixels@,
                    pw as int,
                    r2,
                    c2,
                    hf as int,
                    vf as int,
                    lw as int,
                    lh as int,
                ) by {
                    assert(r2 * (out_w as int) + c2 < rr * (out_w as int)) by (nonlinear_arith)
                        requires
                            0 <= r2 < rr && 0 <= c2 < out_w,
                    ;
                }
            }
            cc = cc + 1;
        }
        proof {
            assert forall|r2: int, c2: int|
                0 <= r2 < rr + 1 && 0 <= c2 < out_w implies #[trigger] out.pixels@[r2 * (
            out_w as int) + c2] == spec_block_avg(
                plane.pixels@,
                pw as int,
                r2,
                c2,
                hf as int,
                vf as int,
                lw as int,
                lh as int,
            ) by {
                if r2 == rr {
                    assert(out.pixels@[rr * (out_w as int) + c2] == spec_block_avg(
                        plane.pixels@,
                        pw as int,
                        rr as int,
                        c2,
                        hf as int,
                        vf as int,
                        lw as int,
                        lh as int,
                    ));
                }
            }
        }
        rr = rr + 1;
    }
    proof {
        assert(out.pixels@.len() == out_h * out_w);
        assert(out.wf()) by (nonlinear_arith)
            requires
                out.pixels@.len() == out_h * out_w && out.width == out_w && out.height == out_h
                    && out_w * out_h <= pw * ph && pw * ph <= usize::MAX,
        ;
    }
    out
}

impl JpegImage {
    /// The horizontal and vertical factors by which the chrominance planes
    /// shrink under the given ratio.
    pub fn get_downsampling_factor(downsampling_ratio: (u8, u8, u8)) -> (r: (usize, usize))
        requires
            spec_valid_ratio(downsampling_ratio),
        ensures
            r.0 == spec_hf(downsampling_ratio),
            r.1 == spec_vf(downsampling_ratio),
    {
        let (a, b, c) = downsampling_ratio;
        if a == 4 && b == 4 && c == 4 {
            (1, 1)
        } else if a == 4 && b == 2 && c == 0 {
            (2, 2)
        } else {
            (2, 1)
        }
    }

    /// The dimensions of a downsampled chrominance plane: the shrunk
    /// logical dimensions, rounded up so that whole 8x8 coefficient blocks
    /// cover them.
    pub fn get_downsampled_dimensions(
        width: usize,
        height: usize,
        horizontal_downsampling: usize,
        vertical_downsampling: usize,
    ) -> (r: (usize, usize))
        requires
            1 <= horizontal_downsampling,
            1 <= vertical_downsampling,
            width + horizontal_downsampling <= usize::MAX - 8,
            height + vertical_downsampling <= usize::MAX - 8,
        ensures
            r.0 == spec_pad_to_multiple(
                spec_div_ceil(width as int, horizontal_downsampling as int),
                8,
            ),
            r.1 == spec_pad_to_multiple(
                spec_div_ceil(height as int, vertical_downsampling as int),
                8,
            ),
    {
        let aux_width = div_ceil_exec(width, horizontal_downsampling);
        let aux_height = div_ceil_exec(height, vertical_downsampling);
        proof {
            assert(aux_width <= width) by (nonlinear_arith)
                requires
                    aux_width == spec_div_ceil(width as int, horizontal_downsampling as int) && 1
                        <= horizontal_downsampling && 0 <= width,
            ;
            assert(aux_height <= height) by (nonlinear_arith)
                requires
                    aux_height == spec_div_ceil(height as int, vertical_downsampling as int) && 1
                        <= vertical_downsampling && 0 <= height,
            ;
        }
        let downsampled_width = crate::jpeg_image::pad_to_multiple(aux_width, 8);
        let downsampled_height = crate::jpeg_image::pad_to_multiple(aux_height, 8);
        (downsampled_width, downsampled_height)
    }

    /// Downsample the chrominance planes to the configured ratio by block
    /// averaging; 4:4:4 returns without touching them.
    pub fn chrominance_downsampling(&mut self)
        requires
            old(self).wf_config(),
            old(self).channels_pre_downsampling(),
        ensures
            final(self).path == old(self).path,
            final(self).width == old(self).width,
            final(self).height == old(self).height,
            final(self).chrominance_downsampling_ratio
                == old(self).chrominance_downsampling_ratio,
            final(self).dct_algorithm == old(self).dct_algorithm,
            final(self).y_channel == old(self).y_channel,
            final(self).y_dct_coeffs == old(self).y_dct_coeffs,
            final(self).cb_dct_coeffs == old(self).cb_dct_coeffs,
            final(self).cr_dct_coeffs == old(self).cr_dct_coeffs,
            final(self).entropy_coded_bits == old(self).entropy_coded_bits,
            final(self).channels_downsampled(),
            spec_hf(old(self).chrominance_downsampling_ratio) == 1 && spec_vf(
                old(self).chrominance_downsampling_ratio,
            ) == 1 ==> final(self).cb_channel == old(self).cb_channel && final(self).cr_channel
                == old(self).cr_channel,
            final(self).cb_channel.width == final(self).spec_downsampled_width(),
            final(self).cb_channel.height == final(self).spec_downsampled_height(),
            !(spec_hf(old(self).chrominance_downsampling_ratio) == 1 && spec_vf(
                old(self).chrominance_downsampling_ratio,
            ) == 1) ==> (forall|rr: int, cc: int|
                0 <= rr < final(self).spec_downsampled_height()
                    && 0 <= cc < final(self).spec_downsampled_width()
                    ==> #[trigger] final(self).cb_channel.pixels@[rr
                    * final(self).spec_downsampled_width() + cc] == spec_block_avg(
                    old(self).cb_channel.pixels@,
                    old(self).spec_padded_width(),
                    rr,
                    cc,
                    spec_hf(old(self).chrominance_downsampling_ratio),
                    spec_vf(old(self).chrominance_downsampling_ratio),
                    old(self).width as int,
                    old(self).height as int,
                )) && (forall|rr: int, cc: int|
                0 <= rr < final(self).spec_downsampled_height()
                    && 0 <= cc < final(self).spec_downsampled_width()
                    ==> #[trigger] final(self).cr_channel.pixels@[rr
                    * final(self).spec_downsampled_width() + cc] == spec_block_avg(
                    old(self).cr_channel.pixels@,
                    old(self).spec_padded_width(),
                    rr,
                    cc,
                    spec_hf(old(self).chrominance_downsampling_ratio),
                    spec_vf(old(self).chrominance_downsampling_ratio),
                    old(self).width as int,
                    old(self).height as int,
                )),
    {
        let (horizontal_downsampling, vertical_downsampling) = Self::get_downsampling_factor(
            self.chrominance_downsampling_ratio,
        );
        if horizontal_downsampling == 1 && vertical_downsampling == 1 {
            return ;
        }
        proof {
            crate::jpeg_image::lemma_pad_to_multiple(
                self.width as int,
                8 * spec_hf(self.chrominance_downsampling_ratio),
            );
            crate::jpeg_image::lemma_pad_to_multiple(
                self.height as int,
                8 * spec_vf(self.chrominance_downsampling_ratio),
            );
            lemma_padded_divides(
                self.spec_padded_width(),
                spec_hf(self.chrominance_downsampling_ratio),
            );
            lemma_padded_divides(
                self.spec_padded_height(),
                spec_vf(self.chrominance_downsampling_ratio),
            );
        }
        let new_cb = downsample_plane(
            &self.cb_channel,
            horizontal_downsampling,
            vertical_downsampling,
            self.width as usize,
            self.height as usize,
        );
        let new_cr = downsample_plane(
            &self.cr_channel,
            horizontal_downsampling,
            vertical_downsampling,
            self.width as usize,
            self.height as usize,
        );
        self.cb_channel = new_cb;
        self.cr_channel = new_cr;
    }
}

/// A plane padded to a multiple of eight block widths divides evenly by
/// the block width.
proof fn lemma_padded_divides(p: int, f: int)
    requires
        f == 1 || f == 2,
        p % (8 * f) == 0,
        0 <= p,
    ensures
        p % f == 0,
{
    vstd::arithmetic::div_mod::lemma_fundamental_div_mod(p, 8 * f);
    let q = p / (8 * f);
    assert(p == (8 * f) * q);
    vstd::arithmetic::div_mod::lemma_fundamental_div_mod_converse(p, f, 8 * q, 0);
}

/// The downsampler's output dimensions are the ceilings of the input
/// dimensions over the factors: on an evenly dividing plane the exact
/// quotient is that ceiling.
pub proof fn lemma_downsampled_dims_are_ceil(w: int, f: int)
    requires
        1 <= f,
        0 <= w,
        w % f == 0,
    ensures
        w / f == spec_div_ceil(w, f),
{
    vstd::arithmetic::div_mod::lemma_fundamental_div_mod(w, f);
    let q = w / f;
    assert(w + f - 1 == q * f + (f - 1)) by (nonlinear_arith)
        requires
            w == f * q,
    ;
    vstd::arithmetic::div_mod::lemma_fundamental_div_mod_converse(w + f - 1, f, q, f - 1);
}

} // verus!
