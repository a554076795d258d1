//! The forward 8x8 DCT with quantization: a reference fixed-point form of
//! the Type-II transform, and the all-lifting integer binDCT-C
//! approximation using only halvings and small scaled additions.
//!
//! Both take a row-major 64-sample block, level-shift each sample by -128,
//! transform, and divide each coefficient by its quantization table entry
//! with truncation toward zero.

use vstd::prelude::*;
use crate::pixel_matrix::{PixelMatrix, PixelMatrixBlockIterator};

verus! {

/// Which forward DCT the encoder applies.
#[derive(Clone, Copy, Debug, PartialEq, Eq, Structural)]
pub enum DctAlgorithm {
    RealDct,
    BinDct,
}

/// Division truncated toward zero, for a positive divisor.
pub open spec fn spec_trunc_div(a: int, b: int) -> int {
    if a >= 0 {
        a / b
    } else {
        -((-a) / b)
    }
}

/// Truncating division of a bounded value by a positive divisor.
pub fn trunc_div_i32(a: i32, b: u32) -> (r: i32)
    requires
        1 <= b <= 0x1000,
        -0x4000_0000 <= a <= 0x4000_0000,
    ensures
        r == spec_trunc_div(a as int, b as int),
        -0x4000_0000 <= r <= 0x4000_0000,
{
    if a >= 0 {
        let q = (a as u32) / b;
        proof {
            vstd::arithmetic::div_mod::lemma_div_is_ordered(q as int, a as int, 1);
        }
        q as i32
    } else {
        let q = ((-a) as u32) / b;
        proof {
            vstd::arithmetic::div_mod::lemma_div_is_ordered(q as int, (-a) as int, 1);
        }
        -(q as i32)
    }
}

/// Truncating division of a bounded 64-bit value by a positive divisor.
fn trunc_div_i64(a: i64, b: i64) -> (r: i64)
    requires
        1 <= b <= 0x1_0000_0000_0000,
        -0x2000_0000_0000_0000 <= a <= 0x2000_0000_0000_0000,
    ensures
        r == spec_trunc_div(a as int, b as int),
{
    if a >= 0 {
        let q = (a as u64) / (b as u64);
        proof {
            vstd::arithmetic::div_mod::lemma_div_is_ordered(q as int, a as int, 1);
        }
        q as i64
    } else {
        let q = ((-a) as u64) / (b as u64);
        proof {
            vstd::arithmetic::div_mod::lemma_div_is_ordered(q as int, (-a) as int, 1);
        }
        -(q as i64)
    }
}

/// Floor of half, as the arithmetic right shift computes it.
fn floor_div2(x: i32) -> (r: i32)
    requires
        -0x2000_0000 <= x <= 0x2000_0000,
    ensures
        r == x as int / 2,
{
    if x >= 0 {
        ((x as u32) / 2) as i32
    } else {
        let n: u32 = (-x) as u32;
        let q: u32 = (n + 1) / 2;
        proof {
            let xi = x as int;
            let qi = q as int;
            assert(2 * qi <= n + 1 < 2 * (qi + 1));
            assert(xi == 2 * (xi / 2) + xi % 2);
            assert(0 <= xi % 2 < 2);
            assert(xi / 2 == -qi);
        }
        -(q as i32)
    }
}

/// Floor of an eighth, as the arithmetic right shift by three computes it.
fn floor_div8(x: i32) -> (r: i32)
    requires
        -0x2000_0000 <= x <= 0x2000_0000,
    ensures
        r == x as int / 8,
{
    if x >= 0 {
        ((x as u32) / 8) as i32
    } else {
        let n: u32 = (-x) as u32;
        let q: u32 = (n + 7) / 8;
        proof {
            let xi = x as int;
            let qi = q as int;
            assert(8 * qi <= n + 7 < 8 * (qi + 1));
            assert(xi == 8 * (xi / 8) + xi % 8);
            assert(0 <= xi % 8 < 8);
            assert(xi / 8 == -qi);
        }
        -(q as i32)
    }
}

/// Level-shift an 8-bit sample to the signed range.
pub fn dct_shift_range(n: u8) -> (r: i8)
    ensures
        r as int == n as int - 128,
{
    ((n as i16) - 128) as i8
}

/// The eight-point forward lifting network of binDCT-C, already permuted
/// into coefficient order: halvings are floor divisions by two (the
/// arithmetic shift), and the {3,5,7}/8 rotations are scaled floor
/// divisions by eight.
pub open spec fn spec_bin_lift(x: Seq<int>) -> Seq<int> {
    let x7_1 = x[0] - x[7];
    let x0_1 = x[0] - x7_1 / 2;
    let x6_1 = x[1] - x[6];
    let x1_1 = x[1] - x6_1 / 2;
    let x5_1 = x[2] - x[5];
    let x2_1 = x[2] - x5_1 / 2;
    let x4_1 = x[3] - x[4];
    let x3_1 = x[3] - x4_1 / 2;
    let x6_1b = (x5_1 * 3) / 8 + x6_1;
    let x5_1b = (x6_1b * 5) / 8 - x5_1;
    let x0_2 = x0_1 + x3_1;
    let x3_2 = x0_1 - x3_1;
    let x1_2 = x1_1 + x2_1;
    let x2_2 = x1_1 - x2_1;
    let x4_2 = x4_1 + x5_1b;
    let x5_2 = x4_1 - x5_1b;
    let x6_2 = x7_1 - x6_1b;
    let x7_2 = x7_1 + x6_1b;
    let x4_2b = x4_2 - x7_2 / 8;
    let x0_2b = x0_2 + x1_2;
    let x1_2b = -x1_2 + x0_2b / 2;
    let x2_2b = x2_2 - (x3_2 * 3) / 8;
    let x3_2b = x3_2 + (x2_2b * 3) / 8;
    let x5_2b = x5_2 + (x6_2 * 7) / 8;
    let x6_2b = x6_2 - x5_2b / 2;
    seq![x0_2b, x7_2, x3_2b, x6_2b, x1_2b, x5_2b, x2_2b, x4_2b]
}

/// The sample values of an 8-element buffer, as integers.
pub open spec fn spec_i32_seq(s: Seq<i32>) -> Seq<int> {
    s.map_values(|v: i32| v as int)
}

/// Run the lifting network on eight bounded values.
#[verifier::rlimit(100)]
#[verifier::spinoff_prover]
fn bin_lift8(xs: &[i32; 8], Ghost(b): Ghost<int>) -> (r: [i32; 8])
    requires
        1 <= b <= 100000,
        forall|k: int| 0 <= k < 8 ==> -b <= #[trigger] xs@[k] <= b,
    ensures
        spec_i32_seq(r@) == spec_bin_lift(spec_i32_seq(xs@)),
        forall|k: int| 0 <= k < 8 ==> -(11 * b + 11) <= #[trigger] r@[k] <= 11 * b + 11,
{
    let x0 = xs[0];
    let x1 = xs[1];
    let x2 = xs[2];
    let x3 = xs[3];
    let x4 = xs[4];
    let x5 = xs[5];
    let x6 = xs[6];
    let x7 = xs[7];

    let x7_1 = x0 - x7;
    let x0_1 = x0 - floor_div2(x7_1);
    let x6_1 = x1 - x6;
    let x1_1 = x1 - floor_div2(x6_1);
    let x5_1 = x2 - x5;
    let x2_1 = x2 - floor_div2(x5_1);
    let x4_1 = x3 - x4;
    let x3_1 = x3 - floor_div2(x4_1);

    let x6_1b = floor_div8(x5_1 * 3) + x6_1;
    let x5_1b = floor_div8(x6_1b * 5) - x5_1;

    let x0_2 = x0_1 + x3_1;
    let x3_2 = x0_1 - x3_1;
    let x1_2 = x1_1 + x2_1;
    let x2_2 = x1_1 - x2_1;
    let x4_2 = x4_1 + x5_1b;
    let x5_2 = x4_1 - x5_1b;
    let x6_2 = x7_1 - x6_1b;
    let x7_2 = x7_1 + x6_1b;

    let x4_2b = x4_2 - floor_div8(x7_2);
    let x0_2b = x0_2 + x1_2;
    let x1_2b = -x1_2 + floor_div2(x0_2b);
    let x2_2b = x2_2 - floor_div8(x3_2 * 3);
    let x3_2b = x3_2 + floor_div8(x2_2b * 3);
    let x5_2b = x5_2 + floor_div8(x6_2 * 7);
    let x6_2b = x6_2 - floor_div2(x5_2b);

    proof {
        assert(-(2 * b) <= x7_1 <= 2 * b);
        assert(-(2 * b) <= x6_1 <= 2 * b);
        assert(-(2 * b) <= x5_1 <= 2 * b);
        assert(-(2 * b) <= x4_1 <= 2 * b);
        assert(-(2 * b) <= x0_1 <= 2 * b);
        assert(-(2 * b) <= x1_1 <= 2 * b);
        assert(-(2 * b) <= x2_1 <= 2 * b);
        assert(-(2 * b) <= x3_1 <= 2 * b);
        assert(-(3 * b + 1) <= x6_1b <= 3 * b + 1);
        assert(-(4 * b + 2) <= x5_1b <= 4 * b + 2);
        assert(-(4 * b) <= x0_2 <= 4 * b);
        assert(-(4 * b) <= x3_2 <= 4 * b);
        assert(-(4 * b) <= x1_2 <= 4 * b);
        assert(-(4 * b) <= x2_2 <= 4 * b);
        assert(-(6 * b + 2) <= x4_2 <= 6 * b + 2);
        assert(-(6 * b + 2) <= x5_2 <= 6 * b + 2);
        assert(-(5 * b + 2) <= x6_2 <= 5 * b + 2);
        assert(-(5 * b + 2) <= x7_2 <= 5 * b + 2);
        assert(-(7 * b + 3) <= x4_2b <= 7 * b + 3);
        assert(-(8 * b) <= x0_2b <= 8 * b);
        assert(-(8 * b + 1) <= x1_2b <= 8 * b + 1);
        assert(-(6 * b + 2) <= x2_2b <= 6 * b + 2);
        assert(-(7 * b + 3) <= x3_2b <= 7 * b + 3);
        assert(-(11 * b + 5) <= x5_2b <= 11 * b + 5);
        assert(-(11 * b + 8) <= x6_2b <= 11 * b + 8);
    }
    let r: [i32; 8] = [x0_2b, x7_2, x3_2b, x6_2b, x1_2b, x5_2b, x2_2b, x4_2b];
    proof {
        assert(spec_i32_seq(r@) =~= spec_bin_lift(spec_i32_seq(xs@)));
    }
    r
}

/// The level-shifted samples of a block, as integers.
pub open spec fn spec_shifted(block: Seq<u8>) -> Seq<int> {
    Seq::new(64, |k: int| block[k] - 128)
}

/// One row of a row-major 64-entry grid.
pub open spec fn spec_row_of(m: Seq<int>, i: int) -> Seq<int> {
    Seq::new(8, |c: int| m[8 * i + c])
}

/// One column of a row-major 64-entry grid.
pub open spec fn spec_col_of(m: Seq<int>, c: int) -> Seq<int> {
    Seq::new(8, |r: int| m[8 * r + c])
}

/// The row pass: every row run through the lifting network.
pub open spec fn spec_bin_rows(m: Seq<int>) -> Seq<int> {
    Seq::new(64, |k: int| spec_bin_lift(spec_row_of(m, k / 8))[k % 8])
}

/// The column pass: every column run through the lifting network.
pub open spec fn spec_bin_cols(m: Seq<int>) -> Seq<int> {
    Seq::new(64, |k: int| spec_bin_lift(spec_col_of(m, k % 8))[k / 8])
}

/// The quantized binDCT coefficients of a level-shifted block: the row
/// pass, the column pass, then per-entry truncating division by the
/// quantization table.
pub open spec fn spec_bin_dct_quant(block: Seq<u8>, qt: Seq<u8>) -> Seq<int> {
    let transformed = spec_bin_cols(spec_bin_rows(spec_shifted(block)));
    Seq::new(64, |k: int| spec_trunc_div(transformed[k], qt[k] as int))
}

/// The quantized binDCT coefficients of one 64-sample block.
#[verifier::rlimit(100)]
pub fn bin_dct_quant_block(block_buffer: &Vec<u8>, quantization_table: &[u8; 64]) -> (r: Vec<i16>)
    requires
        block_buffer@.len() == 64,
        crate::quant_tables::spec_quant_table_wf(quantization_table@),
    ensures
        r@.len() == 64,
        forall|k: int|
            0 <= k < 64 ==> #[trigger] r@[k] == spec_bin_dct_quant(
                block_buffer@,
                quantization_table@,
            )[k],
        forall|k: int| 0 <= k < 64 ==> -16384 <= #[trigger] r@[k] <= 16383,
{
    let ghost shifted = spec_shifted(block_buffer@);
    let mut aux: Vec<i32> = Vec::new();
    let mut k: usize = 0;
    while k < 64
        invariant
            block_buffer@.len() == 64,
            shifted == spec_shifted(block_buffer@),
            k <= 64,
            aux@.len() == k,
            forall|t: int| 0 <= t < k ==> #[trigger] aux@[t] == shifted[t],
            forall|t: int| 0 <= t < k ==> -128 <= #[trigger] aux@[t] <= 127,
        decreases 64 - k,
    {
        aux.push((block_buffer[k] as i32) - 128);
        k = k + 1;
    }

    let ghost rows_result = spec_bin_rows(shifted);
    let mut i: usize = 0;
    while i < 8
        invariant
            block_buffer@.len() == 64,
            i <= 8,
            aux@.len() == 64,
            rows_result == spec_bin_rows(shifted),
            shifted == spec_shifted(block_buffer@),
            forall|t: int| 8 * i <= t < 64 ==> #[trigger] aux@[t] == shifted[t],
            forall|t: int| 8 * i <= t < 64 ==> -128 <= #[trigger] aux@[t] <= 127,
            forall|t: int| 0 <= t < 8 * i ==> #[trigger] aux@[t] == rows_result[t],
            forall|t: int| 0 <= t < 8 * i ==> -1419 <= #[trigger] aux@[t] <= 1419,
        decreases 8 - i,
    {
        let xs: [i32; 8] = [
            aux[8 * i],
            aux[8 * i + 1],
            aux[8 * i + 2],
            aux[8 * i + 3],
            aux[8 * i + 4],
            aux[8 * i + 5],
            aux[8 * i + 6],
            aux[8 * i + 7],
        ];
        proof {
            assert(spec_i32_seq(xs@) =~= spec_row_of(shifted, i as int));
        }
        let out = bin_lift8(&xs, Ghost(128));
        let mut p: usize = 0;
        while p < 8
            invariant
                i < 8,
                p <= 8,
                aux@.len() == 64,
                rows_result == spec_bin_rows(shifted),
                spec_i32_seq(out@) == spec_bin_lift(spec_row_of(shifted, i as int)),
                forall|q: int| 0 <= q < 8 ==> -1419 <= #[trigger] out@[q] <= 1419,
                forall|t: int| 8 * i + p <= t < 64 ==> #[trigger] aux@[t] == shifted[t],
                forall|t: int| 8 * i + p <= t < 64 ==> -128 <= #[trigger] aux@[t] <= 127,
                forall|t: int| 0 <= t < 8 * i + p ==> #[trigger] aux@[t] == rows_result[t],
                forall|t: int| 0 <= t < 8 * i + p ==> -1419 <= #[trigger] aux@[t] <= 1419,
            decreases 8 - p,
        {
            proof {
                vstd::arithmetic::div_mod::lemma_fundamental_div_mod_converse(
                    8 * (i as int) + p as int,
                    8,
                    i as int,
                    p as int,
                );
                assert(spec_i32_seq(out@)[p as int] == out@[p as int]);
            }
            aux.set(8 * i + p, out[p]);
            p = p + 1;
        }
        i = i + 1;
    }
    proof {
        assert(forall|t: int| 0 <= t < 64 ==> #[trigger] aux@[t] == rows_result[t]);
    }

    let ghost cols_result = spec_bin_cols(rows_result);
    let mut c: usize = 0;
    while c < 8
        invariant
            c <= 8,
            aux@.len() == 64,
            cols_result == spec_bin_cols(rows_result),
            forall|t: int| 0 <= t < 64 && t % 8 >= c ==> #[trigger] aux@[t] == rows_result[t],
            forall|t: int| 0 <= t < 64 && t % 8 >= c ==> -1419 <= #[trigger] aux@[t] <= 1419,
            forall|t: int| 0 <= t < 64 && t % 8 < c ==> #[trigger] aux@[t] == cols_result[t],
            forall|t: int| 0 <= t < 64 && t % 8 < c ==> -15640 <= #[trigger] aux@[t] <= 15640,
        decreases 8 - c,
    {
        proof {
            assert forall|r2: int| 0 <= r2 < 8 implies #[trigger] ((8 * r2 + c) % 8) == c as int
                && (8 * r2 + c) / 8 == r2 && 0 <= 8 * r2 + c < 64 by {
                vstd::arithmetic::div_mod::lemma_fundamental_div_mod_converse(
                    8 * r2 + c as int,
                    8,
                    r2,
                    c as int,
                );
            }
        }
        let xs: [i32; 8] = [
            aux[c],
            aux[8 + c],
            aux[16 + c],
            aux[24 + c],
            aux[32 + c],
            aux[40 + c],
            aux[48 + c],
            aux[56 + c],
        ];
        proof {
            assert(spec_i32_seq(xs@) =~= spec_col_of(rows_result, c as int));
        }
        let out = bin_lift8(&xs, Ghost(1419));
        let mut p: usize = 0;
        while p < 8
            invariant
                c < 8,
                p <= 8,
                aux@.len() == 64,
                cols_result == spec_bin_cols(rows_result),
                spec_i32_seq(out@) == spec_bin_lift(spec_col_of(rows_result, c as int)),
                forall|q: int| 0 <= q < 8 ==> -15640 <= #[trigger] out@[q] <= 15640,
                forall|t: int|
                    0 <= t < 64 && t % 8 >= c && !(t % 8 == c && t / 8 < p) ==> #[trigger] aux@[t]
                        == rows_result[t],
                forall|t: int|
                    0 <= t < 64 && t % 8 >= c && !(t % 8 == c && t / 8 < p) ==> -1419
                        <= #[trigger] aux@[t] <= 1419,
                forall|t: int|
                    0 <= t < 64 && (t % 8 < c || (t % 8 == c && t / 8 < p)) ==> #[trigger] aux@[t]
                        == cols_result[t],
                forall|t: int|
                    0 <= t < 64 && (t % 8 < c || (t % 8 == c && t / 8 < p)) ==> -15640
                        <= #[trigger] aux@[t] <= 15640,
            decreases 8 - p,
        {
            proof {
                vstd::arithmetic::div_mod::lemma_fundamental_div_mod_converse(
                    8 * (p as int) + c as int,
                    8,
                    p as int,
                    c as int,
                );
                assert(spec_i32_seq(out@)[p as int] == out@[p as int]);
            }
            aux.set(8 * p + c, out[p]);
            p = p + 1;
        }
        c = c + 1;
    }
    proof {
        assert(forall|t: int| 0 <= t < 64 ==> #[trigger] aux@[t] == cols_result[t]);
    }

    let mut r: Vec<i16> = Vec::new();
    let mut k2: usize = 0;
    while k2 < 64
        invariant
            block_buffer@.len() == 64,
            crate::quant_tables::spec_quant_table_wf(quantization_table@),
            k2 <= 64,
            aux@.len() == 64,
            cols_result == spec_bin_cols(spec_bin_rows(spec_shifted(block_buffer@))),
            forall|t: int| 0 <= t < 64 ==> #[trigger] aux@[t] == cols_result[t],
            forall|t: int| 0 <= t < 64 ==> -15640 <= #[trigger] aux@[t] <= 15640,
            r@.len() == k2,
            forall|t: int|
                0 <= t < k2 ==> #[trigger] r@[t] == spec_bin_dct_quant(
                    block_buffer@,
                    quantization_table@,
                )[t],
            forall|t: int| 0 <= t < k2 ==> -16384 <= #[trigger] r@[t] <= 16383,
        decreases 64 - k2,
    {
        let q = quantization_table[k2];
        let v = trunc_div_i32(aux[k2], q as u32);
        proof {
            lemma_trunc_div_bound(aux@[k2 as int] as int, q as int);
        }
        r.push(v as i16);
        k2 = k2 + 1;
    }
    r
}

/// Truncating division never grows the magnitude.
pub proof fn lemma_trunc_div_bound(a: int, b: int)
    requires
        1 <= b,
    ensures
        spec_abs_i(spec_trunc_div(a, b)) <= spec_abs_i(a),
{
    if a >= 0 {
        vstd::arithmetic::div_mod::lemma_div_is_ordered_by_denominator(a, 1, b);
        vstd::arithmetic::div_mod::lemma_div_pos_is_pos(a, b);
    } else {
        vstd::arithmetic::div_mod::lemma_div_is_ordered_by_denominator(-a, 1, b);
        vstd::arithmetic::div_mod::lemma_div_pos_is_pos(-a, b);
    }
}

/// The absolute value.
pub open spec fn spec_abs_i(v: int) -> int {
    if v < 0 {
        -v
    } else {
        v
    }
}

/// The cosine table of the reference transform: `cos((2n+1) u pi / 16)`
/// scaled by 4096 and rounded, flattened as `u * 8 + n`.
pub open spec fn spec_cos_table() -> Seq<int> {
    seq![
        4096, 4096, 4096, 4096, 4096, 4096, 4096, 4096, 4017, 3406, 2276, 799, -799, -2276, -3406,
        -4017, 3784, 1567, -1567, -3784, -3784, -1567, 1567, 3784, 3406, -799, -4017, -2276, 2276,
        4017, 799, -3406, 2896, -2896, -2896, 2896, 2896, -2896, -2896, 2896, 2276, -4017, 799,
        3406, -3406, -799, 4017, -2276, 1567, -3784, 3784, -1567, -1567, 3784, -3784, 1567, 799,
        -2276, 3406, -4017, 4017, -3406, 2276, -799,
    ]
}

/// The DC normalization `1/sqrt(2)`, scaled by 4096; 4096 for the other
/// frequencies.
pub open spec fn spec_alpha(u: int) -> int {
    if u == 0 {
        2896
    } else {
        4096
    }
}

/// The scaled cosine products of one frequency pair summed over the first
/// `n` samples of the level-shifted block.
pub open spec fn spec_real_sum(sh: Seq<int>, u: int, v: int, n: int) -> int
    decreases n,
{
    if n <= 0 {
        0
    } else {
        spec_real_sum(sh, u, v, n - 1) + sh[n - 1] * spec_cos_table()[u * 8 + (n - 1) / 8]
            * spec_cos_table()[v * 8 + (n - 1) % 8]
    }
}

/// One quantized coefficient of the reference transform: the scaled double
/// sum, renormalized in fixed point and divided by the quantization entry,
/// truncating toward zero at each division.
pub open spec fn spec_real_coeff(block: Seq<u8>, u: int, v: int, q: int) -> int {
    let t2 = spec_trunc_div(spec_real_sum(spec_shifted(block), u, v, 64), 4096);
    spec_trunc_div(spec_alpha(u) * spec_alpha(v) * t2, q * 0x40_0000_0000)
}

/// The quantized reference-DCT coefficients of a block, in row-major
/// frequency order.
pub open spec fn spec_real_dct_quant(block: Seq<u8>, qt: Seq<u8>) -> Seq<int> {
    Seq::new(64, |k: int| spec_real_coeff(block, k / 8, k % 8, qt[k] as int))
}

/// The cosine table as machine integers.
fn cos_table() -> (r: [i32; 64])
    ensures
        forall|k: int| 0 <= k < 64 ==> #[trigger] r@[k] == spec_cos_table()[k],
        forall|k: int| 0 <= k < 64 ==> -4096 <= #[trigger] r@[k] <= 4096,
{
    let t: [i32; 64] = [
        4096, 4096, 4096, 4096, 4096, 4096, 4096, 4096, 4017, 3406, 2276, 799, -799, -2276, -3406,
        -4017, 3784, 1567, -1567, -3784, -3784, -1567, 1567, 3784, 3406, -799, -4017, -2276, 2276,
        4017, 799, -3406, 2896, -2896, -2896, 2896, 2896, -2896, -2896, 2896, 2276, -4017, 799,
        3406, -3406, -799, 4017, -2276, 1567, -3784, 3784, -1567, -1567, 3784, -3784, 1567, 799,
        -2276, 3406, -4017, 4017, -3406, 2276, -799,
    ];
    proof {
        assert(forall|k: int| 0 <= k < 64 ==> #[trigger] t@[k] == spec_cos_table()[k]);
    }
    t
}

/// The quantized reference-DCT coefficients of one 64-sample block.
pub fn real_dct_quant_block(block_buffer: &Vec<u8>, quantization_table: &[u8; 64]) -> (r: Vec<
    i16,
>)
    requires
        block_buffer@.len() == 64,
        crate::quant_tables::spec_quant_table_wf(quantization_table@),
    ensures
        r@.len() == 64,
        forall|k: int|
            0 <= k < 64 ==> #[trigger] r@[k] == spec_real_dct_quant(
                block_buffer@,
                quantization_table@,
            )[k],
        forall|k: int| 0 <= k < 64 ==> -16384 <= #[trigger] r@[k] <= 16383,
{
    let ghost shifted = spec_shifted(block_buffer@);
    let cos = cos_table();
    let mut r: Vec<i16> = Vec::new();
    let mut k: usize = 0;
    while k < 64
        invariant
            block_buffer@.len() == 64,
            crate::quant_tables::spec_quant_table_wf(quantization_table@),
            shifted == spec_shifted(block_buffer@),
            forall|t: int| 0 <= t < 64 ==> #[trigger] cos@[t] == spec_cos_table()[t],
            forall|t: int| 0 <= t < 64 ==> -4096 <= #[trigger] cos@[t] <= 4096,
            k <= 64,
            r@.len() == k,
            forall|t: int|
                0 <= t < k ==> #[trigger] r@[t] == spec_real_dct_quant(
                    block_buffer@,
                    quantization_table@,
                )[t],
            forall|t: int| 0 <= t < k ==> -16384 <= #[trigger] r@[t] <= 16383,
        decreases 64 - k,
    {
        let u = k / 8;
        let v = k % 8;
        let mut sum: i64 = 0;
        let mut t: usize = 0;
        while t < 64
            invariant
                block_buffer@.len() == 64,
                shifted == spec_shifted(block_buffer@),
                forall|q: int| 0 <= q < 64 ==> #[trigger] cos@[q] == spec_cos_table()[q],
                forall|q: int| 0 <= q < 64 ==> -4096 <= #[trigger] cos@[q] <= 4096,
                u == k as int / 8,
                v == k as int % 8,
                k < 64,
                t <= 64,
                sum == spec_real_sum(shifted, u as int, v as int, t as int),
                -0x8000_0000 * (t as int) <= sum <= 0x8000_0000 * (t as int),
            decreases 64 - t,
        {
            let x = t / 8;
            let y = t % 8;
            let f: i64 = (block_buffer[t] as i64) - 128;
            let cu: i64 = cos[8 * u + x] as i64;
            let cv: i64 = cos[8 * v + y] as i64;
            proof {
                vstd::arithmetic::div_mod::lemma_mod_bound(k as int, 8);
                vstd::arithmetic::div_mod::lemma_mod_bound(t as int, 8);
                lemma_div_below_dct(k as int);
                lemma_div_below_dct(t as int);
                assert(-0x8000_0000 <= f * cu * cv <= 0x8000_0000 && -0x100_0000 <= f * cu
                    <= 0x100_0000) by (nonlinear_arith)
                    requires
                        -128 <= f <= 127 && -4096 <= cu <= 4096 && -4096 <= cv <= 4096,
                ;
                assert(0x8000_0000 * (t as int) + 0x8000_0000 == 0x8000_0000 * (t as int + 1))
                    by (nonlinear_arith);
                assert(0x8000_0000 * (t as int) <= 0x8000_0000 * 64) by (nonlinear_arith)
                    requires
                        t <= 64,
                ;
            }
            sum = sum + f * cu * cv;
            t = t + 1;
        }
        proof {
            assert(0x8000_0000 * 64 == 0x20_0000_0000) by (nonlinear_arith);
        }
        let t2 = trunc_div_i64(sum, 4096);
        proof {
            if sum >= 0 {
                vstd::arithmetic::div_mod::lemma_div_is_ordered(sum as int, 0x20_0000_0000, 4096);
                vstd::arithmetic::div_mod::lemma_div_pos_is_pos(sum as int, 4096);
            } else {
                vstd::arithmetic::div_mod::lemma_div_is_ordered(
                    -(sum as int),
                    0x20_0000_0000,
                    4096,
                );
                vstd::arithmetic::div_mod::lemma_div_pos_is_pos(-(sum as int), 4096);
            }
            assert(-0x200_0000 <= t2 <= 0x200_0000);
        }
        let au: i64 = if u == 0 {
            2896
        } else {
            4096
        };
        let av: i64 = if v == 0 {
            2896
        } else {
            4096
        };
        proof {
            assert(-0x2_0000_0000_0000 <= au * av * t2 <= 0x2_0000_0000_0000)
                by (nonlinear_arith)
                requires
                    0 <= au <= 4096 && 0 <= av <= 4096 && -0x200_0000 <= t2 <= 0x200_0000,
            ;
        }
        let f_num: i64 = au * av * t2;
        let q = quantization_table[k];
        let divisor: i64 = (q as i64) * 0x40_0000_0000;
        let coeff = trunc_div_i64(f_num, divisor);
        proof {
            assert(spec_abs_i(spec_trunc_div(f_num as int, divisor as int)) <= 16383) by {
                if f_num >= 0 {
                    vstd::arithmetic::div_mod::lemma_div_is_ordered_by_denominator(
                        f_num as int,
                        0x40_0000_0000,
                        divisor as int,
                    );
                    vstd::arithmetic::div_mod::lemma_div_is_ordered(
                        f_num as int,
                        0x2_0000_0000_0000,
                        0x40_0000_0000,
                    );
                    vstd::arithmetic::div_mod::lemma_div_pos_is_pos(
                        f_num as int,
                        divisor as int,
                    );
                } else {
                    vstd::arithmetic::div_mod::lemma_div_is_ordered_by_denominator(
                        -(f_num as int),
                        0x40_0000_0000,
                        divisor as int,
                    );
                    vstd::arithmetic::div_mod::lemma_div_is_ordered(
                        -(f_num as int),
                        0x2_0000_0000_0000,
                        0x40_0000_0000,
                    );
                    vstd::arithmetic::div_mod::lemma_div_pos_is_pos(
                        -(f_num as int),
                        divisor as int,
                    );
                }
            }
            assert(r@.len() == k);
        }
        r.push(coeff as i16);
        k = k + 1;
    }
    r
}

/// A block position divided by eight stays below eight.
proof fn lemma_div_below_dct(k: int)
    requires
        0 <= k < 64,
    ensures
        0 <= k / 8 < 8,
{
    crate::pixel_matrix::lemma_div_below(k, 8, 8);
}

/// In a plane whose width is a multiple of eight, the flat index of cell
/// `k` of block `(br, bc)` decomposes back into its row and column.
pub proof fn lemma_cell_coords(w: int, br: int, bc: int, k: int)
    requires
        w >= 8,
        w % 8 == 0,
        0 <= k < 64,
        0 <= br,
        0 <= bc,
        8 * bc + 8 <= w,
    ensures
        0 <= (8 * br + k / 8) * w + 8 * bc + k % 8,
        ((8 * br + k / 8) * w + 8 * bc + k % 8) / w == 8 * br + k / 8,
        ((8 * br + k / 8) * w + 8 * bc + k % 8) % w == 8 * bc + k % 8,
        (8 * br + k / 8) / 8 == br,
        (8 * br + k / 8) % 8 == k / 8,
        (8 * bc + k % 8) / 8 == bc,
        (8 * bc + k % 8) % 8 == k % 8,
{
    vstd::arithmetic::div_mod::lemma_mod_bound(k, 8);
    crate::pixel_matrix::lemma_div_below(k, 8, 8);
    let row = 8 * br + k / 8;
    let col = 8 * bc + k % 8;
    let j = row * w + col;
    assert(j == w * row + col && 0 <= j) by (nonlinear_arith)
        requires
            j == row * w + col && 0 <= row && 0 <= col && w >= 8,
    ;
    vstd::arithmetic::div_mod::lemma_fundamental_div_mod_converse(j, w, row, col);
    vstd::arithmetic::div_mod::lemma_fundamental_div_mod_converse(row, 8, br, k / 8);
    vstd::arithmetic::div_mod::lemma_fundamental_div_mod_converse(col, 8, bc, k % 8);
}

/// The 64 samples of 8x8 block `(br, bc)` of a plane, in row-major order.
pub open spec fn spec_plane_block_u8(p: Seq<u8>, w: int, br: int, bc: int) -> Seq<u8> {
    Seq::new(64, |k: int| p[(8 * br + k / 8) * w + 8 * bc + k % 8])
}

/// The quantized coefficients of a block under the selected transform.
pub open spec fn spec_dct_quant(alg: DctAlgorithm, block: Seq<u8>, qt: Seq<u8>) -> Seq<int> {
    match alg {
        DctAlgorithm::RealDct => spec_real_dct_quant(block, qt),
        DctAlgorithm::BinDct => spec_bin_dct_quant(block, qt),
    }
}

/// Copy 8x8 block `(br, bc)` of a sample plane into a flat buffer.
fn read_plane_block(m: &PixelMatrix<u8>, br: usize, bc: usize) -> (r: Vec<u8>)
    requires
        m.wf(),
        m.width % 8 == 0,
        m.width >= 8,
        8 * bc + 8 <= m.width,
        8 * br + 8 <= m.height,
    ensures
        r@.len() == 64,
        r@ == spec_plane_block_u8(m.pixels@, m.width as int, br as int, bc as int),
{
    let w = m.width;
    let mut r: Vec<u8> = Vec::new();
    let mut k: usize = 0;
    while k < 64
        invariant
            m.wf(),
            w == m.width,
            m.width % 8 == 0,
            m.width >= 8,
            8 * bc + 8 <= m.width,
            8 * br + 8 <= m.height,
            k <= 64,
            r@.len() == k,
            forall|t: int|
                0 <= t < k ==> #[trigger] r@[t] == spec_plane_block_u8(
                    m.pixels@,
                    m.width as int,
                    br as int,
                    bc as int,
                )[t],
        decreases 64 - k,
    {
        proof {
            lemma_cell_coords(w as int, br as int, bc as int, k as int);
            crate::pixel_matrix::lemma_index_in_plane(
                8 * br + k as int / 8,
                8 * bc + k as int % 8,
                m.width as int,
                m.height as int,
            );
        }
        let row = 8 * br + k / 8;
        let col = 8 * bc + k % 8;
        let v = m.pixels[row * w + col];
        r.push(v);
        k = k + 1;
    }
    r
}

/// Whether flat index `j` of a plane of width `w` lies inside 8x8 block
/// `(br, bc)`.
pub open spec fn spec_in_block(j: int, w: int, br: int, bc: int) -> bool {
    &&& 8 * br <= j / w < 8 * br + 8
    &&& 8 * bc <= j % w < 8 * bc + 8
}

/// A flat index inside a block reconstructs from its in-block position.
pub proof fn lemma_block_cell_reconstruct(j: int, w: int, br: int, bc: int)
    requires
        w >= 8,
        w % 8 == 0,
        0 <= br,
        0 <= bc,
        0 <= j,
        spec_in_block(j, w, br, bc),
    ensures
        0 <= ((j / w) % 8) * 8 + (j % w) % 8 < 64,
        j == (8 * br + (((j / w) % 8) * 8 + (j % w) % 8) / 8) * w + 8 * bc + (((j / w) % 8) * 8 + (
        j % w) % 8) % 8,
{
    let row = j / w;
    let col = j % w;
    vstd::arithmetic::div_mod::lemma_fundamental_div_mod(j, w);
    vstd::arithmetic::div_mod::lemma_mod_bound(j, w);
    vstd::arithmetic::div_mod::lemma_fundamental_div_mod_converse(row, 8, br, row - 8 * br);
    vstd::arithmetic::div_mod::lemma_fundamental_div_mod_converse(col, 8, bc, col - 8 * bc);
    let k = (row % 8) * 8 + col % 8;
    vstd::arithmetic::div_mod::lemma_fundamental_div_mod_converse(k, 8, row % 8, col % 8);
    assert(j == w * row + col);
    assert(j == (8 * br + k / 8) * w + 8 * bc + k % 8) by (nonlinear_arith)
        requires
            j == w * row + col && row == 8 * br + k / 8 && col == 8 * bc + k % 8,
    ;
}

/// The position of flat index `j` within its 8x8 block.
pub open spec fn spec_block_pos(j: int, w: int) -> int {
    ((j / w) % 8) * 8 + (j % w) % 8
}

/// Write 64 coefficients into 8x8 block `(br, bc)` of a plane.
fn write_plane_block(m: &mut PixelMatrix<i16>, br: usize, bc: usize, vals: &Vec<i16>)
    requires
        old(m).wf(),
        old(m).width % 8 == 0,
        old(m).width >= 8,
        8 * bc + 8 <= old(m).width,
        8 * br + 8 <= old(m).height,
        vals@.len() == 64,
    ensures
        final(m).wf(),
        final(m).width == old(m).width,
        final(m).height == old(m).height,
        final(m).pixels@.len() == old(m).pixels@.len(),
        forall|j: int|
            0 <= j < final(m).pixels@.len() ==> #[trigger] final(m).pixels@[j] == (if spec_in_block(
                j,
                old(m).width as int,
                br as int,
                bc as int,
            ) {
                vals@[spec_block_pos(j, old(m).width as int)]
            } else {
                old(m).pixels@[j]
            }),
        forall|k: int|
            0 <= k < 64 ==> #[trigger] final(m).pixels@[(8 * (br as int) + k / 8) * (old(m).width as int) + 8 * (bc as int) + k % 8] == vals@[k],
{
    let w = m.width;
    let mut k: usize = 0;
    while k < 64
        invariant
            m.wf(),
            w == m.width,
            m.width == old(m).width,
            m.height == old(m).height,
            m.pixels@.len() == old(m).pixels@.len(),
            m.width % 8 == 0,
            m.width >= 8,
            8 * bc + 8 <= m.width,
            8 * br + 8 <= m.height,
            vals@.len() == 64,
            k <= 64,
            forall|j: int|
                0 <= j < m.pixels@.len() ==> #[trigger] m.pixels@[j] == (if spec_in_block(
                    j,
                    w as int,
                    br as int,
                    bc as int,
                ) && spec_block_pos(j, w as int) < k {
                    vals@[spec_block_pos(j, w as int)]
                } else {
                    old(m).pixels@[j]
                }),
        decreases 64 - k,
    {
        proof {
            lemma_cell_coords(w as int, br as int, bc as int, k as int);
            crate::pixel_matrix::lemma_index_in_plane(
                8 * br + k as int / 8,
                8 * bc + k as int % 8,
                m.width as int,
                m.height as int,
            );
        }
        let row = 8 * br + k / 8;
        let col = 8 * bc + k % 8;
        let ghost idx = row as int * w + col as int;
        m.set_pixel(row, col, vals[k]);
        proof {
            assert(spec_in_block(idx, w as int, br as int, bc as int));
            assert(spec_block_pos(idx, w as int) == k);
            assert forall|j: int| 0 <= j < m.pixels@.len() implies #[trigger] m.pixels@[j] == (
            if spec_in_block(j, w as int, br as int, bc as int) && spec_block_pos(j, w as int) < k
                + 1 {
                vals@[spec_block_pos(j, w as int)]
            } else {
                old(m).pixels@[j]
            }) by {
                if j != idx && spec_in_block(j, w as int, br as int, bc as int) && spec_block_pos(
                    j,
                    w as int,
                ) == k {
                    lemma_block_cell_reconstruct(j, w as int, br as int, bc as int);
                    assert(j == idx);
                }
            }
        }
        k = k + 1;
    }
    proof {
        assert forall|k2: int|
            0 <= k2 < 64 implies #[trigger] m.pixels@[(8 * (br as int) + k2 / 8) * (w as int) + 8
            * (bc as int) + k2 % 8] == vals@[k2] by {
            lemma_cell_coords(w as int, br as int, bc as int, k2);
            crate::pixel_matrix::lemma_index_in_plane(
                8 * br + k2 / 8,
                8 * bc + k2 % 8,
                m.width as int,
                m.height as int,
            );
        }
    }
}

/// Apply the selected transform with quantization to every 8x8 block of a
/// channel plane, writing the coefficients into the matching block of the
/// coefficient plane.
pub fn dct_plane(
    channel: &PixelMatrix<u8>,
    coeffs: &mut PixelMatrix<i16>,
    quantization_table: &[u8; 64],
    algorithm: DctAlgorithm,
)
    requires
        channel.wf(),
        old(coeffs).wf(),
        channel.width == old(coeffs).width,
        channel.height == old(coeffs).height,
        channel.width % 8 == 0,
        channel.height % 8 == 0,
        channel.width >= 8,
        channel.height >= 8,
        crate::quant_tables::spec_quant_table_wf(quantization_table@),
        forall|j: int|
            0 <= j < old(coeffs).pixels@.len() ==> -16384 <= #[trigger] old(coeffs).pixels@[j]
                <= 16383,
    ensures
        final(coeffs).wf(),
        final(coeffs).width == old(coeffs).width,
        final(coeffs).height == old(coeffs).height,
        forall|j: int|
            0 <= j < final(coeffs).pixels@.len() ==> -16384 <= #[trigger] final(coeffs).pixels@[j]
                <= 16383,
        forall|br: int, bc: int, k: int|
            0 <= br < channel.height as int / 8 && 0 <= bc < channel.width as int / 8 && 0 <= k
                < 64 ==> #[trigger] final(coeffs).pixels@[(8 * br + k / 8) * (channel.width as int)
                + 8 * bc + k % 8] == spec_dct_quant(
                algorithm,
                spec_plane_block_u8(channel.pixels@, channel.width as int, br, bc),
                quantization_table@,
            )[k],
{
    let w = channel.width;
    let h = channel.height;
    let blocks_w = w / 8;
    let blocks_h = h / 8;
    proof {
        vstd::arithmetic::div_mod::lemma_fundamental_div_mod(w as int, 8);
        vstd::arithmetic::div_mod::lemma_fundamental_div_mod(h as int, 8);
    }
    let mut br: usize = 0;
    while br < blocks_h
        invariant
            channel.wf(),
            coeffs.wf(),
            w == channel.width,
            h == channel.height,
            coeffs.width == w,
            coeffs.height == h,
            w % 8 == 0,
            h % 8 == 0,
            w >= 8,
            h >= 8,
            blocks_w == w as int / 8,
            blocks_h == h as int / 8,
            w == 8 * blocks_w,
            h == 8 * blocks_h,
            crate::quant_tables::spec_quant_table_wf(quantization_table@),
            br <= blocks_h,
            forall|j: int|
                0 <= j < coeffs.pixels@.len() ==> -16384 <= #[trigger] coeffs.pixels@[j] <= 16383,
            forall|b2: int, c2: int, k: int|
                0 <= b2 < blocks_h && 0 <= c2 < blocks_w && 0 <= k < 64 && (b2 < br) ==> #[trigger] coeffs.pixels@[(8 * b2 + k / 8) * (w as int) + 8 * c2 + k % 8]
                    == spec_dct_quant(
                    algorithm,
                    spec_plane_block_u8(channel.pixels@, w as int, b2, c2),
                    quantization_table@,
                )[k],
        decreases blocks_h - br,
    {
        let mut bc: usize = 0;
        while bc < blocks_w
            invariant
                channel.wf(),
                coeffs.wf(),
                w == channel.width,
                h == channel.height,
                coeffs.width == w,
                coeffs.height == h,
                w % 8 == 0,
                h % 8 == 0,
                w >= 8,
                h >= 8,
                blocks_w == w as int / 8,
                blocks_h == h as int / 8,
                w == 8 * blocks_w,
                h == 8 * blocks_h,
                crate::quant_tables::spec_quant_table_wf(quantization_table@),
                br < blocks_h,
                bc <= blocks_w,
                forall|j: int|
                    0 <= j < coeffs.pixels@.len() ==> -16384 <= #[trigger] coeffs.pixels@[j]
                        <= 16383,
                forall|b2: int, c2: int, k: int|
                    0 <= b2 < blocks_h && 0 <= c2 < blocks_w && 0 <= k < 64 && (b2 < br || (b2
                        == br && c2 < bc)) ==> #[trigger] coeffs.pixels@[(8 * b2 + k / 8) * (
                    w as int) + 8 * c2 + k % 8] == spec_dct_quant(
                        algorithm,
                        spec_plane_block_u8(channel.pixels@, w as int, b2, c2),
                        quantization_table@,
                    )[k],
            decreases blocks_w - bc,
        {
            proof {
                assert(8 * bc + 8 <= 8 * blocks_w && 8 * br + 8 <= 8 * blocks_h)
                    by (nonlinear_arith)
                    requires
                        bc < blocks_w && br < blocks_h,
                ;
            }
            let ghost pre = coeffs.pixels@;
            let block = read_plane_block(channel, br, bc);
            let vals = match algorithm {
                DctAlgorithm::RealDct => real_dct_quant_block(&block, quantization_table),
                DctAlgorithm::BinDct => bin_dct_quant_block(&block, quantization_table),
            };
            write_plane_block(coeffs, br, bc, &vals);
            proof {
                assert forall|j: int|
                    0 <= j < coeffs.pixels@.len() implies -16384 <= #[trigger] coeffs.pixels@[j]
                    <= 16383 by {
                    if spec_in_block(j, w as int, br as int, bc as int) {
                        assert(-16384 <= vals@[spec_block_pos(j, w as int)] <= 16383) by {
                            lemma_block_cell_reconstruct(j, w as int, br as int, bc as int);
                        }
                    } else {
                        assert(coeffs.pixels@[j] == pre[j]);
                    }
                }
                assert forall|b2: int, c2: int, k: int|
                    0 <= b2 < blocks_h && 0 <= c2 < blocks_w && 0 <= k < 64 && (b2 < br || (b2
                        == br && c2 < bc + 1)) implies #[trigger] coeffs.pixels@[(8 * b2 + k / 8)
                    * (w as int) + 8 * c2 + k % 8] == spec_dct_quant(
                    algorithm,
                    spec_plane_block_u8(channel.pixels@, w as int, b2, c2),
                    quantization_table@,
                )[k] by {
                    lemma_cell_coords(w as int, b2, c2, k);
                    assert(8 * c2 + 8 <= w) by (nonlinear_arith)
                        requires
                            c2 < blocks_w && w == 8 * blocks_w,
                    ;
                    crate::pixel_matrix::lemma_index_in_plane(
                        8 * b2 + k / 8,
                        8 * c2 + k % 8,
                        w as int,
                        h as int,
                    );
                    let cellj = (8 * b2 + k / 8) * (w as int) + 8 * c2 + k % 8;
                    if b2 == br && c2 == bc {
                        assert(coeffs.pixels@[cellj] == vals@[k]);
                        assert(vals@[k] == spec_dct_quant(
                            algorithm,
                            spec_plane_block_u8(channel.pixels@, w as int, b2, c2),
                            quantization_table@,
                        )[k]);
                    } else {
                        assert(!spec_in_block(cellj, w as int, br as int, bc as int));
                        assert(coeffs.pixels@[cellj] == pre[cellj]);
                        assert(pre[cellj] == spec_dct_quant(
                            algorithm,
                            spec_plane_block_u8(channel.pixels@, w as int, b2, c2),
                            quantization_table@,
                        )[k]);
                    }
                }
            }
            bc = bc + 1;
        }
        br = br + 1;
    }
}


/// For a width that is a multiple of eight, the block grid is exactly
/// `w / 8` blocks wide.
pub proof fn lemma_blocks_exact(w: int)
    requires
        w >= 8,
        w % 8 == 0,
    ensures
        crate::pixel_matrix::spec_div_ceil(w, 8) == w / 8,
        8 * (w / 8) == w,
        w / 8 >= 1,
{
    vstd::arithmetic::div_mod::lemma_fundamental_div_mod(w, 8);
    let q = w / 8;
    vstd::arithmetic::div_mod::lemma_fundamental_div_mod_converse(w + 7, 8, q, 7);
}

/// A plane padded to whole MCUs divides into whole 8x8 blocks, both before
/// and after shrinking by the downsampling factor.
pub proof fn lemma_mcu_geometry(p: int, f: int)
    requires
        f == 1 || f == 2,
        p % (8 * f) == 0,
        p >= 1,
    ensures
        p % 8 == 0,
        p >= 8,
        (p / f) % 8 == 0,
        p / f >= 8,
        f * (p / f) == p,
{
    vstd::arithmetic::div_mod::lemma_fundamental_div_mod(p, 8 * f);
    let q = p / (8 * f);
    assert(p == (8 * f) * q);
    assert(q >= 1 && p == 8 * (f * q) && p == f * (8 * q) && 8 * q >= 8 && p >= 8) by (nonlinear_arith)
        requires
            p == (8 * f) * q && p >= 1 && (f == 1 || f == 2),
    ;
    vstd::arithmetic::div_mod::lemma_fundamental_div_mod_converse(p, 8, f * q, 0);
    vstd::arithmetic::div_mod::lemma_fundamental_div_mod_converse(p, f, 8 * q, 0);
    vstd::arithmetic::div_mod::lemma_fundamental_div_mod_converse(8 * q, 8, q, 0);
}

impl crate::jpeg_image::JpegImage {
    /// Transform and quantize every 8x8 block of the three channel planes
    /// into the coefficient planes: the luminance plane under the luminance
    /// table, the chrominance planes under the chrominance table, with the
    /// configured algorithm.
    pub fn dct_and_quantization(&mut self)
        requires
            old(self).wf_config(),
            old(self).channels_downsampled(),
            old(self).coeffs_shape(),
            forall|j: int|
                0 <= j < old(self).y_dct_coeffs.pixels@.len() ==> -16384 <= #[trigger] old(self).y_dct_coeffs.pixels@[j] <= 16383,
            forall|j: int|
                0 <= j < old(self).cb_dct_coeffs.pixels@.len() ==> -16384 <= #[trigger] old(self).cb_dct_coeffs.pixels@[j] <= 16383,
            forall|j: int|
                0 <= j < old(self).cr_dct_coeffs.pixels@.len() ==> -16384 <= #[trigger] old(self).cr_dct_coeffs.pixels@[j] <= 16383,
        ensures
            final(self).path == old(self).path,
            final(self).width == old(self).width,
            final(self).height == old(self).height,
            final(self).chrominance_downsampling_ratio
                == old(self).chrominance_downsampling_ratio,
            final(self).dct_algorithm == old(self).dct_algorithm,
            final(self).y_channel == old(self).y_channel,
            final(self).cb_channel == old(self).cb_channel,
            final(self).cr_channel == old(self).cr_channel,
            final(self).entropy_coded_bits == old(self).entropy_coded_bits,
            final(self).channels_downsampled(),
            final(self).coeffs_shape(),
            forall|j: int|
                0 <= j < final(self).y_dct_coeffs.pixels@.len() ==> -16384 <= #[trigger] final(self).y_dct_coeffs.pixels@[j] <= 16383,
            forall|j: int|
                0 <= j < final(self).cb_dct_coeffs.pixels@.len() ==> -16384 <= #[trigger] final(self).cb_dct_coeffs.pixels@[j] <= 16383,
            forall|j: int|
                0 <= j < final(self).cr_dct_coeffs.pixels@.len() ==> -16384 <= #[trigger] final(self).cr_dct_coeffs.pixels@[j] <= 16383,
            forall|br: int, bc: int, k: int|
                0 <= br < old(self).spec_padded_height() / 8 && 0 <= bc < old(self).spec_padded_width() / 8 && 0 <= k < 64 ==> #[trigger] final(self).y_dct_coeffs.pixels@[(8 * br + k / 8) * old(self).spec_padded_width() + 8 * bc
                    + k % 8] == spec_dct_quant(
                    old(self).dct_algorithm,
                    spec_plane_block_u8(
                        old(self).y_channel.pixels@,
                        old(self).spec_padded_width(),
                        br,
                        bc,
                    ),
                    crate::quant_tables::spec_y_quant_table(),
                )[k],
            forall|br: int, bc: int, k: int|
                0 <= br < old(self).spec_downsampled_height() / 8 && 0 <= bc < old(self).spec_downsampled_width() / 8 && 0 <= k < 64 ==> #[trigger] final(self).cb_dct_coeffs.pixels@[(8 * br + k / 8) * old(self).spec_downsampled_width() + 8
                    * bc + k % 8] == spec_dct_quant(
                    old(self).dct_algorithm,
                    spec_plane_block_u8(
                        old(self).cb_channel.pixels@,
                        old(self).spec_downsampled_width(),
                        br,
                        bc,
                    ),
                    crate::quant_tables::spec_ch_quant_table(),
                )[k],
            forall|br: int, bc: int, k: int|
                0 <= br < old(self).spec_downsampled_height() / 8 && 0 <= bc < old(self).spec_downsampled_width() / 8 && 0 <= k < 64 ==> #[trigger] final(self).cr_dct_coeffs.pixels@[(8 * br + k / 8) * old(self).spec_downsampled_width() + 8
                    * bc + k % 8] == spec_dct_quant(
                    old(self).dct_algorithm,
                    spec_plane_block_u8(
                        old(self).cr_channel.pixels@,
                        old(self).spec_downsampled_width(),
                        br,
                        bc,
                    ),
                    crate::quant_tables::spec_ch_quant_table(),
                )[k],
    {
        proof {
            crate::jpeg_image::lemma_pad_to_multiple(
                self.width as int,
                8 * crate::jpeg_image::spec_hf(self.chrominance_downsampling_ratio),
            );
            crate::jpeg_image::lemma_pad_to_multiple(
                self.height as int,
                8 * crate::jpeg_image::spec_vf(self.chrominance_downsampling_ratio),
            );
            lemma_mcu_geometry(
                self.spec_padded_width(),
                crate::jpeg_image::spec_hf(self.chrominance_downsampling_ratio),
            );
            lemma_mcu_geometry(
                self.spec_padded_height(),
                crate::jpeg_image::spec_vf(self.chrominance_downsampling_ratio),
            );
        }
        let y_table = crate::quant_tables::default_y_quantization_table();
        let ch_table = crate::quant_tables::default_ch_quantization_table();
        let algorithm = self.dct_algorithm;
        dct_plane(&self.y_channel, &mut self.y_dct_coeffs, &y_table, algorithm);
        dct_plane(&self.cb_channel, &mut self.cb_dct_coeffs, &ch_table, algorithm);
        dct_plane(&self.cr_channel, &mut self.cr_dct_coeffs, &ch_table, algorithm);
    }

    /// Transform, quantize, and store one block with the lifting binDCT,
    /// writing through the block cursor, which steps to the next block.
    pub fn forward_bin_dct_and_quant(
        block_buffer: &Vec<u8>,
        quantization_table: [u8; 64],
        coeffs_block_iterator: &mut PixelMatrixBlockIterator,
        coeffs: &mut PixelMatrix<i16>,
    )
        requires
            block_buffer@.len() == 64,
            crate::quant_tables::spec_quant_table_wf(quantization_table@),
            old(coeffs_block_iterator).wf(),
            old(coeffs_block_iterator).matches::<i16>(*old(coeffs)),
            old(coeffs_block_iterator).block_width == 8,
            old(coeffs_block_iterator).block_height == 8,
            old(coeffs_block_iterator).row_in_block_idx == 0,
            old(coeffs_block_iterator).col_in_block_idx == 0,
            old(coeffs).width % 8 == 0,
            old(coeffs).height % 8 == 0,
            old(coeffs).width >= 8,
            old(coeffs).height >= 8,
        ensures
            final(coeffs_block_iterator).wf(),
            final(coeffs_block_iterator).matches::<i16>(*final(coeffs)),
            (*final(coeffs_block_iterator) == PixelMatrixBlockIterator {
                block_idx: (if old(coeffs_block_iterator).block_idx == old(coeffs_block_iterator).spec_blocks_amount() - 1 {
                    0
                } else {
                    (old(coeffs_block_iterator).block_idx + 1) as int
                }) as usize,
                ..*old(coeffs_block_iterator)
            }),
            final(coeffs).width == old(coeffs).width,
            final(coeffs).height == old(coeffs).height,
            forall|k: int|
                0 <= k < 64 ==> #[trigger] final(coeffs).pixels@[(8 * (old(coeffs_block_iterator).block_idx as int / (old(coeffs).width as int / 8)) + k / 8) * (old(coeffs).width as int) + 8 * (old(coeffs_block_iterator).block_idx as int % (old(coeffs).width as int / 8)) + k % 8] == spec_bin_dct_quant(
                    block_buffer@,
                    quantization_table@,
                )[k],
            forall|j: int|
                0 <= j < old(coeffs).pixels@.len() && !spec_in_block(
                    j,
                    old(coeffs).width as int,
                    old(coeffs_block_iterator).block_idx as int / (old(coeffs).width as int / 8),
                    old(coeffs_block_iterator).block_idx as int % (old(coeffs).width as int / 8),
                ) ==> #[trigger] final(coeffs).pixels@[j] == old(coeffs).pixels@[j],
    {
        let vals = bin_dct_quant_block(block_buffer, &quantization_table);
        write_cursor_block(coeffs_block_iterator, coeffs, &vals);
    }

    /// Transform, quantize, and store one block with the reference DCT,
    /// writing through the block cursor, which steps to the next block.
    pub fn forward_real_dct_and_quant(
        block_buffer: &Vec<u8>,
        quantization_table: [u8; 64],
        coeffs_block_iterator: &mut PixelMatrixBlockIterator,
        coeffs: &mut PixelMatrix<i16>,
    )
        requires
            block_buffer@.len() == 64,
            crate::quant_tables::spec_quant_table_wf(quantization_table@),
            old(coeffs_block_iterator).wf(),
            old(coeffs_block_iterator).matches::<i16>(*old(coeffs)),
            old(coeffs_block_iterator).block_width == 8,
            old(coeffs_block_iterator).block_height == 8,
            old(coeffs_block_iterator).row_in_block_idx == 0,
            old(coeffs_block_iterator).col_in_block_idx == 0,
            old(coeffs).width % 8 == 0,
            old(coeffs).height % 8 == 0,
            old(coeffs).width >= 8,
            old(coeffs).height >= 8,
        ensures
            final(coeffs_block_iterator).wf(),
            final(coeffs_block_iterator).matches::<i16>(*final(coeffs)),
            (*final(coeffs_block_iterator) == PixelMatrixBlockIterator {
                block_idx: (if old(coeffs_block_iterator).block_idx == old(coeffs_block_iterator).spec_blocks_amount() - 1 {
                    0
                } else {
                    (old(coeffs_block_iterator).block_idx + 1) as int
                }) as usize,
                ..*old(coeffs_block_iterator)
            }),
            final(coeffs).width == old(coeffs).width,
            final(coeffs).height == old(coeffs).height,
            forall|k: int|
                0 <= k < 64 ==> #[trigger] final(coeffs).pixels@[(8 * (old(coeffs_block_iterator).block_idx as int / (old(coeffs).width as int / 8)) + k / 8) * (old(coeffs).width as int) + 8 * (old(coeffs_block_iterator).block_idx as int % (old(coeffs).width as int / 8)) + k % 8] == spec_real_dct_quant(
                    block_buffer@,
                    quantization_table@,
                )[k],
            forall|j: int|
                0 <= j < old(coeffs).pixels@.len() && !spec_in_block(
                    j,
                    old(coeffs).width as int,
                    old(coeffs_block_iterator).block_idx as int / (old(coeffs).width as int / 8),
                    old(coeffs_block_iterator).block_idx as int % (old(coeffs).width as int / 8),
                ) ==> #[trigger] final(coeffs).pixels@[j] == old(coeffs).pixels@[j],
    {
        let vals = real_dct_quant_block(block_buffer, &quantization_table);
        write_cursor_block(coeffs_block_iterator, coeffs, &vals);
    }
}

/// Write a block of coefficients at the cursor's block and step the cursor
/// to the next block.
fn write_cursor_block(
    it: &mut PixelMatrixBlockIterator,
    coeffs: &mut PixelMatrix<i16>,
    vals: &Vec<i16>,
)
    requires
        vals@.len() == 64,
        old(it).wf(),
        old(it).matches::<i16>(*old(coeffs)),
        old(it).block_width == 8,
        old(it).block_height == 8,
        old(it).row_in_block_idx == 0,
        old(it).col_in_block_idx == 0,
        old(coeffs).width % 8 == 0,
        old(coeffs).height % 8 == 0,
        old(coeffs).width >= 8,
        old(coeffs).height >= 8,
    ensures
        final(it).wf(),
        final(it).matches::<i16>(*final(coeffs)),
        (*final(it) == PixelMatrixBlockIterator {
            block_idx: (if old(it).block_idx == old(it).spec_blocks_amount() - 1 {
                0
            } else {
                (old(it).block_idx + 1) as int
            }) as usize,
            ..*old(it)
        }),
        final(coeffs).width == old(coeffs).width,
        final(coeffs).height == old(coeffs).height,
        forall|k: int|
            0 <= k < 64 ==> #[trigger] final(coeffs).pixels@[(8 * (old(it).block_idx as int / (old(coeffs).width as int / 8)) + k / 8) * (old(coeffs).width as int) + 8 * (old(it).block_idx as int % (old(coeffs).width as int / 8)) + k % 8] == vals@[k],
        forall|j: int|
            0 <= j < old(coeffs).pixels@.len() && !spec_in_block(
                j,
                old(coeffs).width as int,
                old(it).block_idx as int / (old(coeffs).width as int / 8),
                old(it).block_idx as int % (old(coeffs).width as int / 8),
            ) ==> #[trigger] final(coeffs).pixels@[j] == old(coeffs).pixels@[j],
{
    proof {
        lemma_blocks_exact(coeffs.width as int);
        lemma_blocks_exact(coeffs.height as int);
        it.lemma_blocks_amount_bounds();
        crate::pixel_matrix::lemma_div_below(
            it.block_idx as int,
            it.spec_blocks_per_row(),
            it.spec_blocks_per_column(),
        );
        vstd::arithmetic::div_mod::lemma_mod_bound(
            it.block_idx as int,
            it.spec_blocks_per_row(),
        );
    }
    let blocks_per_row = it.get_blocks_per_row();
    let br = it.block_idx / blocks_per_row;
    let bc = it.block_idx % blocks_per_row;
    proof {
        assert(8 * bc + 8 <= coeffs.width && 8 * br + 8 <= coeffs.height) by (nonlinear_arith)
            requires
                bc < coeffs.width as int / 8 && br < coeffs.height as int / 8 && 8 * (
                coeffs.width as int / 8) == coeffs.width && 8 * (coeffs.height as int / 8)
                    == coeffs.height,
        ;
    }
    write_plane_block(coeffs, br, bc, vals);
    it.increment_block_idx();
}

/// The lifting network on a constant row: every difference vanishes,
/// leaving four times the value in the DC position and zeros elsewhere.
proof fn lemma_bin_lift_constant(v: int)
    ensures
        spec_bin_lift(Seq::new(8, |i: int| v)) =~= seq![4 * v, 0, 0, 0, 0, 0, 0, 0],
{
    vstd::arithmetic::div_mod::lemma_fundamental_div_mod_converse(0, 2, 0, 0);
    vstd::arithmetic::div_mod::lemma_fundamental_div_mod_converse(0, 8, 0, 0);
    assert(4 * v == 2 * (2 * v) + 0);
    vstd::arithmetic::div_mod::lemma_fundamental_div_mod_converse(4 * v, 2, 2 * v, 0);
}

/// The binDCT of a constant block: the quantized DC coefficient is
/// sixteen times the level-shifted value divided by the DC quantization
/// entry, truncating, and all 63 AC coefficients are zero. A block of 128
/// level-shifts to zero, so it quantizes to the all-zero block.
pub proof fn lemma_bin_dct_constant_block(block: Seq<u8>, qt: Seq<u8>, c: u8)
    requires
        block.len() == 64,
        forall|k: int| 0 <= k < 64 ==> #[trigger] block[k] == c,
        qt.len() == 64,
        forall|k: int| 0 <= k < 64 ==> #[trigger] qt[k] >= 1,
    ensures
        spec_bin_dct_quant(block, qt)[0] == spec_trunc_div(16 * (c - 128), qt[0] as int),
        forall|k: int| 1 <= k < 64 ==> #[trigger] spec_bin_dct_quant(block, qt)[k] == 0,
        c == 128 ==> forall|k: int|
            0 <= k < 64 ==> #[trigger] spec_bin_dct_quant(block, qt)[k] == 0,
{
    let v = c - 128;
    let shifted = spec_shifted(block);
    assert(shifted =~= Seq::new(64, |k: int| v));
    lemma_bin_lift_constant(v);
    lemma_bin_lift_constant(4 * v);
    lemma_bin_lift_constant(0);
    let rows = spec_bin_rows(shifted);
    assert forall|k: int| 0 <= k < 64 implies #[trigger] rows[k] == (if k % 8 == 0 {
        4 * v
    } else {
        0
    }) by {
        vstd::arithmetic::div_mod::lemma_mod_bound(k, 8);
        crate::pixel_matrix::lemma_div_below(k, 8, 8);
        assert(spec_row_of(shifted, k / 8) =~= Seq::new(8, |i: int| v));
        assert(spec_bin_lift(spec_row_of(shifted, k / 8)) =~= seq![4 * v, 0, 0, 0, 0, 0, 0, 0]);
    }
    let cols = spec_bin_cols(rows);
    assert forall|k: int| 0 <= k < 64 implies #[trigger] cols[k] == (if k == 0 {
        16 * v
    } else {
        0
    }) by {
        vstd::arithmetic::div_mod::lemma_mod_bound(k, 8);
        crate::pixel_matrix::lemma_div_below(k, 8, 8);
        assert forall|r2: int, m: int| 0 <= r2 < 8 && 0 <= m < 8 implies #[trigger] ((8 * r2
            + m) % 8) == m && 0 <= 8 * r2 + m < 64 by {
            vstd::arithmetic::div_mod::lemma_fundamental_div_mod_converse(8 * r2 + m, 8, r2, m);
        }
        if k % 8 == 0 {
            assert(spec_col_of(rows, k % 8) =~= Seq::new(8, |r2: int| 4 * v));
            assert(spec_bin_lift(spec_col_of(rows, k % 8)) =~= seq![
                4 * (4 * v),
                0,
                0,
                0,
                0,
                0,
                0,
                0,
            ]);
            if k == 0 {
                assert(cols[k] == 16 * v);
            } else {
                assert(k / 8 >= 1) by {
                    vstd::arithmetic::div_mod::lemma_fundamental_div_mod(k, 8);
                }
            }
        } else {
            assert(spec_col_of(rows, k % 8) =~= Seq::new(8, |r2: int| 0int));
            assert(spec_bin_lift(spec_col_of(rows, k % 8)) =~= seq![0int, 0, 0, 0, 0, 0, 0, 0]);
        }
    }
    assert forall|k: int| 1 <= k < 64 implies #[trigger] spec_bin_dct_quant(block, qt)[k]
        == 0 by {
        assert(cols[k] == 0);
        vstd::arithmetic::div_mod::lemma_fundamental_div_mod_converse(0, qt[k] as int, 0, 0);
    }
    assert(spec_bin_dct_quant(block, qt)[0] == spec_trunc_div(16 * (c - 128), qt[0] as int));
    if c == 128 {
        vstd::arithmetic::div_mod::lemma_fundamental_div_mod_converse(0, qt[0] as int, 0, 0);
        assert(spec_bin_dct_quant(block, qt)[0] == 0);
    }
}

/// The scaled cosine sum of an all-zero block vanishes.
proof fn lemma_real_sum_zero(sh: Seq<int>, u: int, v: int, n: int)
    requires
        0 <= n,
        forall|k: int| 0 <= k < n ==> #[trigger] sh[k] == 0,
    ensures
        spec_real_sum(sh, u, v, n) == 0,
    decreases n,
{
    if n > 0 {
        lemma_real_sum_zero(sh, u, v, n - 1);
        let a = spec_cos_table()[u * 8 + (n - 1) / 8];
        let b = spec_cos_table()[v * 8 + (n - 1) % 8];
        assert(sh[n - 1] * a * b == 0) by (nonlinear_arith)
            requires
                sh[n - 1] == 0,
        ;
    }
}

/// The reference DCT of an all-128 block: the block level-shifts to zero,
/// every cosine sum vanishes, and all 64 quantized coefficients are zero.
pub proof fn lemma_real_dct_gray_block(block: Seq<u8>, qt: Seq<u8>)
    requires
        block.len() == 64,
        forall|k: int| 0 <= k < 64 ==> #[trigger] block[k] == 128,
        qt.len() == 64,
        forall|k: int| 0 <= k < 64 ==> #[trigger] qt[k] >= 1,
    ensures
        forall|k: int| 0 <= k < 64 ==> #[trigger] spec_real_dct_quant(block, qt)[k] == 0,
{
    let shifted = spec_shifted(block);
    assert forall|k: int| 0 <= k < 64 implies #[trigger] spec_real_dct_quant(block, qt)[k]
        == 0 by {
        vstd::arithmetic::div_mod::lemma_mod_bound(k, 8);
        crate::pixel_matrix::lemma_div_below(k, 8, 8);
        lemma_real_sum_zero(shifted, k / 8, k % 8, 64);
        vstd::arithmetic::div_mod::lemma_fundamental_div_mod_converse(0, 4096, 0, 0);
        let t2 = spec_trunc_div(spec_real_sum(shifted, k / 8, k % 8, 64), 4096);
        assert(t2 == 0);
        assert(spec_alpha(k / 8) * spec_alpha(k % 8) * t2 == 0) by (nonlinear_arith)
            requires
                t2 == 0,
        ;
        let divisor = (qt[k] as int) * 0x40_0000_0000;
        assert(divisor >= 0x40_0000_0000);
        vstd::arithmetic::div_mod::lemma_fundamental_div_mod_converse(0, divisor, 0, 0);
    }
}

} // verus!
