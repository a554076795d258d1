//! RGB <-> YCbCr conversion (full-range BT.601).
//!
//! The conversion is computed in fixed point: every real coefficient of the
//! BT.601 matrix is scaled by 65536 and rounded to the nearest integer, the
//! linear combination is formed exactly, and the result is divided by 65536.
//! The forward direction truncates (floor), as the encoder specifies; the
//! inverse rounds to nearest and clamps to the sample range.

use vstd::prelude::*;

verus! {

/// An RGB pixel: red, green, blue, each an 8-bit sample.
pub type RGBValue = (u8, u8, u8);

/// A YCbCr pixel: luminance, blue chrominance, red chrominance.
pub type YCbCrValue = (u8, u8, u8);

/// Y = 0.299 R + 0.587 G + 0.114 B, in 16.16 fixed point, truncated.
pub open spec fn spec_y(r: int, g: int, b: int) -> int {
    (19595 * r + 38470 * g + 7471 * b) / 65536
}

/// Cb = 128 - 0.168736 R - 0.331264 G + 0.5 B, in 16.16 fixed point, truncated.
pub open spec fn spec_cb(r: int, g: int, b: int) -> int {
    (8388608 - 11059 * r - 21709 * g + 32768 * b) / 65536
}

/// Cr = 128 + 0.5 R - 0.418688 G - 0.081312 B, in 16.16 fixed point, truncated.
pub open spec fn spec_cr(r: int, g: int, b: int) -> int {
    (8388608 + 32768 * r - 27439 * g - 5329 * b) / 65536
}

/// Clamp an integer to the 8-bit sample range.
pub open spec fn spec_clamp255(v: int) -> int {
    if v < 0 {
        0
    } else if v > 255 {
        255
    } else {
        v
    }
}

/// Round a 16.16 fixed-point value to the nearest integer (half away from zero
/// becomes half up, as the bias is added before the floor).
pub open spec fn spec_round16(v: int) -> int {
    (v + 32768) / 65536
}

/// R = Y + 1.402 (Cr - 128), rounded and clamped.
pub open spec fn spec_inv_r(y: int, cb: int, cr: int) -> int {
    spec_clamp255(spec_round16(65536 * y + 91881 * (cr - 128)))
}

/// G = Y - 0.344136 (Cb - 128) - 0.714136 (Cr - 128), rounded and clamped.
pub open spec fn spec_inv_g(y: int, cb: int, cr: int) -> int {
    spec_clamp255(spec_round16(65536 * y - 22554 * (cb - 128) - 46802 * (cr - 128)))
}

/// B = Y + 1.772 (Cb - 128), rounded and clamped.
pub open spec fn spec_inv_b(y: int, cb: int, cr: int) -> int {
    spec_clamp255(spec_round16(65536 * y + 116130 * (cb - 128)))
}

/// Floor-divide a 16.16 fixed-point value by 65536.
fn floor_div16(x: i32) -> (r: i32)
    requires
        -0x4000_0000 <= x <= 0x4000_0000,
    ensures
        r == x as int / 65536,
{
    if x >= 0 {
        let q: u32 = (x as u32) / 65536;
        proof {
            assert(q == x as int / 65536);
        }
        q as i32
    } else {
        let n: u32 = (-x) as u32;
        let q: u32 = (n + 65535) / 65536;
        proof {
            let xi = x as int;
            let qi = q as int;
            assert(65536 * qi <= n + 65535 < 65536 * (qi + 1));
            assert(xi == 65536 * (xi / 65536) + xi % 65536);
            assert(0 <= xi % 65536 < 65536);
            assert(xi / 65536 == -qi);
        }
        -(q as i32)
    }
}

/// Convert one RGB pixel to YCbCr.
///
/// The three samples are the fixed-point BT.601 combinations, truncated; the
/// results always lie in the 8-bit sample range.
pub fn rgb_to_ycbcr(pixel: RGBValue) -> (res: YCbCrValue)
    ensures
        res.0 == spec_y(pixel.0 as int, pixel.1 as int, pixel.2 as int),
        res.1 == spec_cb(pixel.0 as int, pixel.1 as int, pixel.2 as int),
        res.2 == spec_cr(pixel.0 as int, pixel.1 as int, pixel.2 as int),
{
    let (r, g, b) = pixel;
    let ri: u32 = r as u32;
    let gi: u32 = g as u32;
    let bi: u32 = b as u32;

    let y_num: u32 = 19595 * ri + 38470 * gi + 7471 * bi;
    let y: u32 = y_num / 65536;

    let cb_num: u32 = (8388608 + 32768 * bi) - (11059 * ri + 21709 * gi);
    let cb: u32 = cb_num / 65536;

    let cr_num: u32 = (8388608 + 32768 * ri) - (27439 * gi + 5329 * bi);
    let cr: u32 = cr_num / 65536;

    proof {
        assert(y_num <= 65536 * 255) by {
            assert(19595 * (r as int) + 38470 * (g as int) + 7471 * (b as int) <= (19595 + 38470
                + 7471) * 255) by (nonlinear_arith)
                requires
                    r <= 255 && g <= 255 && b <= 255,
            ;
        };
        assert(11059 * ri + 21709 * gi <= 8388608);
        assert(cb_num <= 16744448);
        assert(27439 * gi + 5329 * bi <= 8388608);
        assert(cr_num <= 16744448);
    }
    (y as u8, cb as u8, cr as u8)
}

/// Convert one YCbCr pixel back to RGB (the inverse BT.601 combination,
/// rounded to nearest and clamped). The encoder itself never calls this;
/// it is the round-trip companion of `rgb_to_ycbcr`.
pub fn ycbcr_to_rgb(pixel: YCbCrValue) -> (res: RGBValue)
    ensures
        res.0 == spec_inv_r(pixel.0 as int, pixel.1 as int, pixel.2 as int),
        res.1 == spec_inv_g(pixel.0 as int, pixel.1 as int, pixel.2 as int),
        res.2 == spec_inv_b(pixel.0 as int, pixel.1 as int, pixel.2 as int),
{
    let (y, cb, cr) = pixel;
    let yi: i32 = y as i32;
    let cbi: i32 = cb as i32;
    let cri: i32 = cr as i32;

    let r_num: i32 = 65536 * yi + 91881 * (cri - 128);
    let g_num: i32 = 65536 * yi - 22554 * (cbi - 128) - 46802 * (cri - 128);
    let b_num: i32 = 65536 * yi + 116130 * (cbi - 128);

    let r = clamp_round(r_num);
    let g = clamp_round(g_num);
    let b = clamp_round(b_num);
    (r, g, b)
}

/// Round a 16.16 fixed-point value to the nearest integer and clamp it to the
/// 8-bit sample range.
fn clamp_round(num: i32) -> (r: u8)
    requires
        -0x3000_0000 <= num <= 0x3000_0000,
    ensures
        r == spec_clamp255(spec_round16(num as int)),
{
    let q: i32 = floor_div16(num + 32768);
    if q < 0 {
        0
    } else if q > 255 {
        255
    } else {
        q as u8
    }
}

/// Round trip of the full-range BT.601 conversion: converting an RGB pixel
/// to YCbCr (truncating, as the encoder does) and back (rounding) moves
/// every component by at most three. The truncation in the forward
/// direction costs up to one extra step per component, so the bound of
/// three is tight: RGB (0, 8, 143) comes back with its blue off by three.
pub proof fn lemma_color_round_trip(red: u8, green: u8, blue: u8)
    ensures
        ({
            let y = spec_y(red as int, green as int, blue as int);
            let cb = spec_cb(red as int, green as int, blue as int);
            let cr = spec_cr(red as int, green as int, blue as int);
            &&& -3 <= spec_inv_r(y, cb, cr) - red <= 3
            &&& -3 <= spec_inv_g(y, cb, cr) - green <= 3
            &&& -3 <= spec_inv_b(y, cb, cr) - blue <= 3
        }),
{
    let r = red as int;
    let g = green as int;
    let b = blue as int;
    let ny = 19595 * r + 38470 * g + 7471 * b;
    let ncb = 8388608 - 11059 * r - 21709 * g + 32768 * b;
    let ncr = 8388608 + 32768 * r - 27439 * g - 5329 * b;
    let y = ny / 65536;
    let cb = ncb / 65536;
    let cr = ncr / 65536;
    vstd::arithmetic::div_mod::lemma_fundamental_div_mod(ny, 65536);
    vstd::arithmetic::div_mod::lemma_mod_bound(ny, 65536);
    vstd::arithmetic::div_mod::lemma_fundamental_div_mod(ncb, 65536);
    vstd::arithmetic::div_mod::lemma_mod_bound(ncb, 65536);
    vstd::arithmetic::div_mod::lemma_fundamental_div_mod(ncr, 65536);
    vstd::arithmetic::div_mod::lemma_mod_bound(ncr, 65536);
    assert(0 <= y <= 255 && 0 <= cb <= 255 && 0 <= cr <= 255);

    let vr = 65536 * y + 91881 * (cr - 128) + 32768;
    vstd::arithmetic::div_mod::lemma_fundamental_div_mod(vr, 65536);
    vstd::arithmetic::div_mod::lemma_mod_bound(vr, 65536);
    let qr = vr / 65536;
    assert(r - 3 <= qr <= r + 3);
    assert(-3 <= spec_clamp255(qr) - r <= 3);
    assert(spec_inv_r(y, cb, cr) == spec_clamp255(qr));

    let vg = 65536 * y - 22554 * (cb - 128) - 46802 * (cr - 128) + 32768;
    vstd::arithmetic::div_mod::lemma_fundamental_div_mod(vg, 65536);
    vstd::arithmetic::div_mod::lemma_mod_bound(vg, 65536);
    let qg = vg / 65536;
    assert(g - 3 <= qg <= g + 3);
    assert(-3 <= spec_clamp255(qg) - g <= 3);
    assert(spec_inv_g(y, cb, cr) == spec_clamp255(qg));

    let vb = 65536 * y + 116130 * (cb - 128) + 32768;
    vstd::arithmetic::div_mod::lemma_fundamental_div_mod(vb, 65536);
    vstd::arithmetic::div_mod::lemma_mod_bound(vb, 65536);
    let qb = vb / 65536;
    assert(b - 3 <= qb <= b + 3);
    assert(-3 <= spec_clamp255(qb) - b <= 3);
    assert(spec_inv_b(y, cb, cr) == spec_clamp255(qb));
}

} // verus!
