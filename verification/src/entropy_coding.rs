//! Run-length and Huffman encoding of quantized 8x8 coefficient blocks.
//!
//! A block becomes one DC token (the size category of the difference to the
//! previous DC of the same component) followed by AC tokens over the
//! coefficients in zig-zag order: runs of zeros are folded into the token's
//! high nibble, sixteen zeros at a time into ZRL sentinels, and a trailing
//! run of zeros into one EOB sentinel. Each token is then emitted as its
//! canonical Huffman code followed by the amplitude's `size` low bits.

use vstd::prelude::*;
use vstd::arithmetic::power2::{lemma2_to64, lemma_pow2_unfold, pow2};
use crate::JpegError;
use crate::bitvec::{spec_bits_of, write_bits, BitVec};
use crate::huffman_tables::{
    spec_code_for, spec_zig_zag_map, zig_zag_map, HuffmanTable, SpecHuffman, spec_huffman_wf,
};

verus! {

/// One run-length token: `symbol = (run << 4) | size` and the amplitude to
/// transmit in `size` bits. The sentinels are `0x00` (end of block) and
/// `0xF0` (sixteen zeros).
#[derive(Clone, Copy, Debug, PartialEq, Eq, Structural)]
pub struct RunLength {
    pub symbol: u8,
    pub amplitude: i16,
}

/// The absolute value.
pub open spec fn spec_abs(v: int) -> int {
    if v < 0 {
        -v
    } else {
        v
    }
}

/// The bit length of a nonnegative value: 0 for 0, else one more than the
/// bit length of its half.
pub open spec fn spec_bit_length(v: int) -> int
    decreases v,
{
    if v <= 0 {
        0
    } else {
        1 + spec_bit_length(v / 2)
    }
}

/// A positive value lies between the powers of two of its bit length.
pub proof fn lemma_bit_length_bounds(v: int)
    requires
        v >= 1,
    ensures
        spec_bit_length(v) >= 1,
        pow2((spec_bit_length(v) - 1) as nat) <= v < pow2(spec_bit_length(v) as nat),
    decreases v,
{
    if v == 1 {
        lemma2_to64();
        assert(spec_bit_length(1) == 1 + spec_bit_length(0));
    } else {
        lemma_bit_length_bounds(v / 2);
        let b = spec_bit_length(v / 2);
        lemma_pow2_unfold((b + 1) as nat);
        if b >= 1 {
            lemma_pow2_unfold(b as nat);
        } else {
            lemma2_to64();
        }
    }
}

/// Bit length is never negative.
pub proof fn lemma_bit_length_nonneg(v: int)
    ensures
        spec_bit_length(v) >= 0,
    decreases v,
{
    if v >= 1 {
        lemma_bit_length_nonneg(v / 2);
    }
}

/// Bit length is monotone.
pub proof fn lemma_bit_length_monotone(v: int, w: int)
    requires
        0 <= v <= w,
    ensures
        spec_bit_length(v) <= spec_bit_length(w),
    decreases w,
{
    lemma_bit_length_nonneg(w);
    if v >= 1 {
        vstd::arithmetic::div_mod::lemma_div_is_ordered(v, w, 2);
        lemma_bit_length_monotone(v / 2, w / 2);
    }
}

/// The JPEG amplitude of a value in its size category: the value itself
/// when nonnegative, else the value shifted into the upper half of the
/// category.
pub open spec fn spec_amplitude(v: int, size: int) -> int {
    if v < 0 {
        v + pow2(size as nat) - 1
    } else {
        v
    }
}

/// The amplitude of a value in its own size category is a nonnegative
/// number of that many bits.
pub proof fn lemma_amplitude_in_range(v: int)
    requires
        -32768 < v < 32768,
    ensures
        0 <= spec_amplitude(v, spec_bit_length(spec_abs(v))) < pow2(
            spec_bit_length(spec_abs(v)) as nat,
        ),
        spec_bit_length(spec_abs(v)) <= 15,
{
    lemma2_to64();
    if v == 0 {
    } else {
        lemma_bit_length_bounds(spec_abs(v));
        lemma_bit_length_monotone(spec_abs(v), 32767);
        assert(spec_bit_length(32767) == 15) by {
            reveal_with_fuel(spec_bit_length, 17);
        }
    }
}

/// The amplitude of an in-range value fits the 16-bit token field.
pub proof fn lemma_amplitude_fits(v: int)
    requires
        -32768 < v < 32768,
    ensures
        0 <= spec_amplitude(v, spec_bit_length(spec_abs(v))) <= 32767,
        spec_amplitude(v, spec_bit_length(spec_abs(v))) as i16 == spec_amplitude(
            v,
            spec_bit_length(spec_abs(v)),
        ),
{
    lemma_amplitude_in_range(v);
    lemma_bit_length_nonneg(spec_abs(v));
    lemma2_to64();
    let size = spec_bit_length(spec_abs(v));
    if size < 15 {
        vstd::arithmetic::power2::lemma_pow2_strictly_increases(size as nat, 15);
    }
}

/// Compute the bit length of a nonnegative coefficient.
pub fn bit_length(value: i16) -> (r: u8)
    requires
        value >= 0,
    ensures
        r == spec_bit_length(value as int),
        r <= 16,
{
    let mut v: u16 = value as u16;
    let mut len: u8 = 0;
    proof {
        lemma2_to64();
    }
    while v > 0
        invariant
            len <= 16,
            v < pow2((16 - len) as nat),
            spec_bit_length(value as int) == len + spec_bit_length(v as int),
        decreases v,
    {
        proof {
            lemma2_to64();
            if len == 16 {
                assert(v < 1);
            }
            lemma_pow2_unfold((16 - len) as nat);
        }
        v = v / 2;
        len = len + 1;
    }
    len
}

/// Compute two to a small power.
fn pow2_exec(e: u8) -> (r: u32)
    requires
        e <= 16,
    ensures
        r == pow2(e as nat),
{
    let mut p: u32 = 1;
    let mut i: u8 = 0;
    proof {
        lemma2_to64();
    }
    while i < e
        invariant
            i <= e <= 16,
            p == pow2(i as nat),
            p <= 0x10000,
        decreases e - i,
    {
        proof {
            lemma_pow2_unfold((i + 1) as nat);
            lemma2_to64();
            vstd::arithmetic::power2::lemma_pow2_pos(i as nat);
            if (i as int) < 16 {
                vstd::arithmetic::power2::lemma_pow2_strictly_increases(i as nat, 16);
            }
        }
        p = p * 2;
        i = i + 1;
    }
    p
}

/// The run-length symbol: the zero run in the high nibble, the size
/// category in the low nibble.
pub fn get_run_length_symbol(zeros_count: u8, bit_length: u8) -> (r: u8)
    requires
        zeros_count <= 15,
        bit_length <= 15,
    ensures
        r == zeros_count * 16 + bit_length,
{
    zeros_count * 16 + bit_length
}

/// Transform a coefficient into its transmitted amplitude.
pub fn coeff_to_amplitude(value: i16, bit_length: u8) -> (r: i16)
    requires
        -32768 < value as int,
        bit_length == spec_bit_length(spec_abs(value as int)),
    ensures
        r == spec_amplitude(value as int, bit_length as int),
        0 <= r < pow2(bit_length as nat),
{
    proof {
        lemma_amplitude_in_range(value as int);
        lemma2_to64();
        if bit_length < 15 {
            vstd::arithmetic::power2::lemma_pow2_strictly_increases(bit_length as nat, 15);
        }
    }
    if value < 0 {
        let p = pow2_exec(bit_length);
        ((value as i32) + (p as i32) - 1) as i16
    } else {
        value
    }
}

/// The 64 coefficients of a block reordered by the zig-zag scan.
pub open spec fn spec_zigzag_seq(coeffs: Seq<i16>) -> Seq<i16> {
    Seq::new(64, |i: int| coeffs[spec_zig_zag_map()[i] as int])
}

/// The end-of-block sentinel.
pub open spec fn spec_eob() -> RunLength {
    RunLength { symbol: 0x00, amplitude: 0 }
}

/// The sixteen-zeros sentinel.
pub open spec fn spec_zrl() -> RunLength {
    RunLength { symbol: 0xf0, amplitude: 0 }
}

/// The DC token of a block: the size category of the difference to the
/// previous DC, and that difference's amplitude.
pub open spec fn spec_dc_token(dc: int, prev: int) -> RunLength {
    let diff = dc - prev;
    let size = spec_bit_length(spec_abs(diff));
    RunLength { symbol: size as u8, amplitude: spec_amplitude(diff, size) as i16 }
}

/// One non-sentinel AC token.
pub open spec fn spec_ac_token(zeros: int, v: int) -> RunLength {
    let size = spec_bit_length(spec_abs(v));
    RunLength {
        symbol: (zeros * 16 + size) as u8,
        amplitude: spec_amplitude(v, size) as i16,
    }
}

/// The AC tokens of a block from zig-zag position `i` on, with `zeros`
/// zeros pending: zeros accumulate; a nonzero coefficient first flushes
/// whole sixteens as ZRL and then carries the rest in its run nibble; a
/// pending run at the end collapses into one EOB.
pub open spec fn spec_ac_tokens(zz: Seq<i16>, i: int, zeros: int) -> Seq<RunLength>
    decreases 64 - i, zeros,
{
    if i >= 64 || i < 0 || zeros < 0 {
        if zeros > 0 {
            seq![spec_eob()]
        } else {
            Seq::empty()
        }
    } else if zz[i] == 0 {
        spec_ac_tokens(zz, i + 1, zeros + 1)
    } else if zeros >= 16 {
        seq![spec_zrl()] + spec_ac_tokens(zz, i, zeros - 16)
    } else {
        seq![spec_ac_token(zeros, zz[i] as int)] + spec_ac_tokens(zz, i + 1, 0)
    }
}

/// The full token sequence of a block: DC first, then the AC scan from
/// zig-zag position 1.
pub open spec fn spec_rl_tokens(coeffs: Seq<i16>, prev: int) -> Seq<RunLength> {
    seq![spec_dc_token(coeffs[0] as int, prev)] + spec_ac_tokens(spec_zigzag_seq(coeffs), 1, 0)
}

/// Every size category of the block is within the baseline limits: 11 bits
/// for the DC difference, 10 for any AC coefficient.
pub open spec fn spec_block_sizes_ok(coeffs: Seq<i16>, prev: int) -> bool {
    &&& spec_bit_length(spec_abs(coeffs[0] - prev)) <= 11
    &&& forall|i: int|
        1 <= i < 64 ==> spec_bit_length(
            spec_abs(#[trigger] spec_zigzag_seq(coeffs)[i] as int),
        ) <= 10
}

/// Run-length encode one block of 64 quantized coefficients, appending the
/// tokens to `result_buffer` and updating the DC predictor; a DC difference
/// over 11 bits or an AC coefficient over 10 bits is a fatal overflow.
pub fn runlength_encode(
    prev_dc_coeff: &mut i16,
    dct_coeffs: &Vec<i16>,
    result_buffer: &mut Vec<RunLength>,
) -> (r: Result<(), JpegError>)
    requires
        dct_coeffs@.len() == 64,
        forall|k: int| 0 <= k < 64 ==> -16384 <= #[trigger] dct_coeffs@[k] <= 16383,
        -16384 <= *old(prev_dc_coeff) <= 16383,
    ensures
        (r is Ok) == spec_block_sizes_ok(dct_coeffs@, *old(prev_dc_coeff) as int),
        r is Ok ==> final(result_buffer)@ == old(result_buffer)@ + spec_rl_tokens(
            dct_coeffs@,
            *old(prev_dc_coeff) as int,
        ),
        r is Ok ==> *final(prev_dc_coeff) == dct_coeffs@[0],
        r is Err ==> r == Err::<(), JpegError>(JpegError::CoefficientOverflow),
        spec_bit_length(spec_abs(dct_coeffs@[0] - *old(prev_dc_coeff))) > 11
            ==> *final(prev_dc_coeff) == *old(prev_dc_coeff) && final(result_buffer)@ == old(
            result_buffer,
        )@,
        r is Err ==> (*final(prev_dc_coeff) == *old(prev_dc_coeff) || *final(prev_dc_coeff)
            == dct_coeffs@[0]) && exists|n: int|
            0 <= n <= spec_rl_tokens(dct_coeffs@, *old(prev_dc_coeff) as int).len()
                && final(result_buffer)@ == old(result_buffer)@ + spec_rl_tokens(
                dct_coeffs@,
                *old(prev_dc_coeff) as int,
            ).take(n),
{
    let ghost prev0 = *prev_dc_coeff as int;
    let ghost zzs = spec_zigzag_seq(dct_coeffs@);
    let dc = dct_coeffs[0];
    let diff: i16 = dc - *prev_dc_coeff;
    let abs_diff: i16 = if diff < 0 {
        -diff
    } else {
        diff
    };
    let dc_size = bit_length(abs_diff);
    if dc_size > 11 {
        proof {
            assert(result_buffer@ =~= old(result_buffer)@ + spec_rl_tokens(
                dct_coeffs@,
                prev0,
            ).take(0));
        }
        return Err(JpegError::CoefficientOverflow);
    }
    let dc_amp = coeff_to_amplitude(diff, dc_size);
    result_buffer.push(RunLength { symbol: dc_size, amplitude: dc_amp });
    *prev_dc_coeff = dc;
    proof {
        assert(result_buffer@.last() == spec_dc_token(dct_coeffs@[0] as int, prev0));
        assert(result_buffer@ =~= old(result_buffer)@ + seq![
            spec_dc_token(dct_coeffs@[0] as int, prev0),
        ]);
    }

    let zz = zig_zag_map();
    let mut zeros: u8 = 0;
    let mut i: usize = 1;
    while i < 64
        invariant
            dct_coeffs@.len() == 64,
            forall|k: int| 0 <= k < 64 ==> -16384 <= #[trigger] dct_coeffs@[k] <= 16383,
            zzs == spec_zigzag_seq(dct_coeffs@),
            zz@ == spec_zig_zag_map(),
            prev0 == *old(prev_dc_coeff),
            result_buffer@.len() >= old(result_buffer)@.len(),
            spec_bit_length(spec_abs(dct_coeffs@[0] - prev0)) <= 11,
            *prev_dc_coeff == dct_coeffs@[0],
            1 <= i <= 64,
            zeros < i,
            result_buffer@ + spec_ac_tokens(zzs, i as int, zeros as int) == old(result_buffer)@
                + spec_rl_tokens(dct_coeffs@, prev0),
            forall|t: int| 1 <= t < i ==> spec_bit_length(spec_abs(#[trigger] zzs[t] as int)) <= 10,
        decreases 64 - i,
    {
        let idx = zz[i];
        let c = dct_coeffs[idx];
        proof {
            assert(c == zzs[i as int]);
        }
        if c == 0 {
            zeros = zeros + 1;
            i = i + 1;
        } else {
            while zeros >= 16
                invariant
                    dct_coeffs@.len() == 64,
                    zzs == spec_zigzag_seq(dct_coeffs@),
                    prev0 == *old(prev_dc_coeff),
                    result_buffer@.len() >= old(result_buffer)@.len(),
                    spec_bit_length(spec_abs(dct_coeffs@[0] - prev0)) <= 11,
                    1 <= i < 64,
                    c == zzs[i as int],
                    c != 0,
                    result_buffer@ + spec_ac_tokens(zzs, i as int, zeros as int) == old(
                        result_buffer,
                    )@ + spec_rl_tokens(dct_coeffs@, prev0),
                decreases zeros,
            {
                result_buffer.push(RunLength { symbol: 0xf0, amplitude: 0 });
                proof {
                    assert(result_buffer@.last() == spec_zrl());
                }
                zeros = zeros - 16;
            }
            let abs_c: i16 = if c < 0 {
                -c
            } else {
                c
            };
            let ac_size = bit_length(abs_c);
            if ac_size > 10 {
                proof {
                    assert(spec_bit_length(spec_abs(zzs[i as int] as int)) > 10);
                    let full = spec_rl_tokens(dct_coeffs@, prev0);
                    let suffix = spec_ac_tokens(zzs, i as int, zeros as int);
                    let n = result_buffer@.len() - old(result_buffer)@.len();
                    assert(result_buffer@ + suffix == old(result_buffer)@ + full);
                    assert(result_buffer@.len() + suffix.len() == old(result_buffer)@.len()
                        + full.len());
                    assert(0 <= n <= full.len());
                    assert forall|k: int|
                        0 <= k < result_buffer@.len() implies #[trigger] result_buffer@[k] == (old(
                        result_buffer,
                    )@ + full)[k] by {
                        assert(result_buffer@[k] == (result_buffer@ + suffix)[k]);
                    }
                    assert(result_buffer@.len() == old(result_buffer)@.len() + n);
                    assert(full.take(n).len() == n);
                    assert(result_buffer@ =~= old(result_buffer)@ + full.take(n));
                }
                return Err(JpegError::CoefficientOverflow);
            }
            let sym = get_run_length_symbol(zeros, ac_size);
            let amp = coeff_to_amplitude(c, ac_size);
            result_buffer.push(RunLength { symbol: sym, amplitude: amp });
            proof {
                assert(result_buffer@.last() == spec_ac_token(zeros as int, zzs[i as int] as int));
            }
            zeros = 0;
            i = i + 1;
        }
    }
    if zeros > 0 {
        result_buffer.push(RunLength { symbol: 0x00, amplitude: 0 });
        proof {
            assert(result_buffer@.last() == spec_eob());
        }
    }
    proof {
        assert(result_buffer@ =~= old(result_buffer)@ + spec_rl_tokens(dct_coeffs@, prev0));
    }
    Ok(())
}

/// The bit emission of one token under one table: the canonical Huffman
/// code of its symbol, then the amplitude's `size` low bits, `size` being
/// the symbol's low nibble (the sentinels have size 0 and thus no
/// amplitude bits). A symbol absent from the table emits nothing.
pub open spec fn spec_token_bits(t: RunLength, table: SpecHuffman) -> Seq<bool> {
    match spec_code_for(table, t.symbol, 0) {
        Some(entry) => spec_bits_of(entry.0, entry.1 as int) + spec_bits_of(
            t.amplitude as u32,
            (t.symbol & 0x0f) as int,
        ),
        None => Seq::empty(),
    }
}

/// The bit emission of a token sequence from position `i` on: the first
/// token of the sequence is a DC token and uses the DC table; all others
/// use the AC table.
pub open spec fn spec_tokens_bits_from(
    tokens: Seq<RunLength>,
    dc: SpecHuffman,
    ac: SpecHuffman,
    i: int,
) -> Seq<bool>
    decreases tokens.len() - i,
{
    if i < 0 || i >= tokens.len() {
        Seq::empty()
    } else {
        spec_token_bits(
            tokens[i],
            if i == 0 {
                dc
            } else {
                ac
            },
        ) + spec_tokens_bits_from(tokens, dc, ac, i + 1)
    }
}

/// The bit emission of a whole block's token sequence.
pub open spec fn spec_tokens_bits(tokens: Seq<RunLength>, dc: SpecHuffman, ac: SpecHuffman) -> Seq<
    bool,
> {
    spec_tokens_bits_from(tokens, dc, ac, 0)
}

/// Every token's symbol has a code in its table.
pub open spec fn spec_tokens_encodable(
    tokens: Seq<RunLength>,
    dc: SpecHuffman,
    ac: SpecHuffman,
) -> bool {
    forall|i: int|
        0 <= i < tokens.len() ==> (spec_code_for(
            if i == 0 {
                dc
            } else {
                ac
            },
            (#[trigger] tokens[i]).symbol,
            0,
        ) is Some)
}

/// Huffman-encode a block's token sequence into the bit buffer: the first
/// token under the DC table, the rest under the AC table; a symbol absent
/// from its table is a fatal missing-code error.
pub fn huffman_encode(
    runlength: &Vec<RunLength>,
    bitvec: &mut BitVec,
    dc_huffman_table: &HuffmanTable,
    ac_huffman_table: &HuffmanTable,
) -> (r: Result<(), JpegError>)
    requires
        spec_huffman_wf(dc_huffman_table@),
        spec_huffman_wf(ac_huffman_table@),
        forall|t: int| 0 <= t < runlength@.len() ==> (#[trigger] runlength@[t]).amplitude >= 0,
    ensures
        (r is Ok) == spec_tokens_encodable(runlength@, dc_huffman_table@, ac_huffman_table@),
        r is Ok ==> final(bitvec)@ == old(bitvec)@ + spec_tokens_bits(
            runlength@,
            dc_huffman_table@,
            ac_huffman_table@,
        ),
        r is Err ==> r == Err::<(), JpegError>(JpegError::MissingHuffmanCode),
{
    let ghost dct = dc_huffman_table@;
    let ghost act = ac_huffman_table@;
    let mut i: usize = 0;
    while i < runlength.len()
        invariant
            dct == dc_huffman_table@,
            act == ac_huffman_table@,
            spec_huffman_wf(dct),
            spec_huffman_wf(act),
            forall|t: int| 0 <= t < runlength@.len() ==> (#[trigger] runlength@[t]).amplitude >= 0,
            i <= runlength@.len(),
            bitvec@ + spec_tokens_bits_from(runlength@, dct, act, i as int) == old(bitvec)@
                + spec_tokens_bits(runlength@, dct, act),
            forall|t: int|
                0 <= t < i ==> (spec_code_for(
                    if t == 0 {
                        dct
                    } else {
                        act
                    },
                    (#[trigger] runlength@[t]).symbol,
                    0,
                ) is Some),
        decreases runlength@.len() - i,
    {
        let r = &runlength[i];
        let looked_up = if i == 0 {
            dc_huffman_table.get_code(r.symbol)
        } else {
            ac_huffman_table.get_code(r.symbol)
        };
        match looked_up {
            None => {
                return Err(JpegError::MissingHuffmanCode);
            },
            Some((code, code_length)) => {
                write_bits(bitvec, code, code_length);
                let sym = r.symbol;
                let size = sym & 0x0f;
                proof {
                    assert(sym & 0x0f <= 15) by (bit_vector);
                }
                write_bits(bitvec, r.amplitude as u32, size);
            },
        }
        i = i + 1;
    }
    Ok(())
}

/// For every run-length token whose low nibble `size` is positive, exactly
/// `size` amplitude bits follow the Huffman code of its symbol in the
/// emitted bit stream.
pub proof fn lemma_amplitude_bits_follow_code(t: RunLength, table: SpecHuffman)
    requires
        spec_code_for(table, t.symbol, 0) is Some,
    ensures
        spec_token_bits(t, table) == spec_bits_of(
            (spec_code_for(table, t.symbol, 0)->0).0,
            (spec_code_for(table, t.symbol, 0)->0).1 as int,
        ) + spec_bits_of(t.amplitude as u32, (t.symbol & 0x0f) as int),
        spec_bits_of(t.amplitude as u32, (t.symbol & 0x0f) as int).len() == t.symbol & 0x0f,
{
    let sym = t.symbol;
    assert(sym & 0x0f >= 0) by (bit_vector);
}

/// For every block, a trailing run of zeros after the last nonzero AC
/// coefficient is represented by exactly one EOB sentinel, at the end of
/// the token sequence; a block whose last zig-zag coefficient is nonzero
/// has none.
pub proof fn lemma_single_eob(zz: Seq<i16>)
    requires
        zz.len() == 64,
    ensures
        zz[63] == 0 ==> spec_ac_tokens(zz, 1, 0).len() >= 1 && spec_ac_tokens(zz, 1, 0).last()
            == spec_eob() && (forall|t: int|
            0 <= t < spec_ac_tokens(zz, 1, 0).len() - 1 ==> #[trigger] spec_ac_tokens(zz, 1, 0)[t]
                != spec_eob()),
        zz[63] != 0 ==> forall|t: int|
            0 <= t < spec_ac_tokens(zz, 1, 0).len() ==> #[trigger] spec_ac_tokens(zz, 1, 0)[t]
                != spec_eob(),
{
    lemma_ac_tokens_eob(zz, 1, 0);
}

/// The EOB discipline of the AC token recursion: exactly one trailing EOB
/// when the block ends in zeros (or a run is pending at the end), and none
/// otherwise. A non-sentinel AC token has a positive low nibble or a
/// nonzero amplitude, so no other token can equal EOB.
proof fn lemma_ac_tokens_eob(zz: Seq<i16>, i: int, zeros: int)
    requires
        zz.len() == 64,
        1 <= i <= 64,
        zeros >= 0,
    ensures
        (if i <= 63 {
            zz[63] == 0
        } else {
            zeros > 0
        }) ==> spec_ac_tokens(zz, i, zeros).len() >= 1 && spec_ac_tokens(zz, i, zeros).last()
            == spec_eob() && (forall|t: int|
            0 <= t < spec_ac_tokens(zz, i, zeros).len() - 1 ==> #[trigger] spec_ac_tokens(
                zz,
                i,
                zeros,
            )[t] != spec_eob()),
        !(if i <= 63 {
            zz[63] == 0
        } else {
            zeros > 0
        }) ==> forall|t: int|
            0 <= t < spec_ac_tokens(zz, i, zeros).len()
                ==> #[trigger] spec_ac_tokens(zz, i, zeros)[t] != spec_eob(),
    decreases 64 - i, zeros,
{
    let toks = spec_ac_tokens(zz, i, zeros);
    if i >= 64 {
    } else if zz[i] == 0 {
        lemma_ac_tokens_eob(zz, i + 1, zeros + 1);
        let rest = spec_ac_tokens(zz, i + 1, zeros + 1);
        assert(toks == rest);
        let has = if i + 1 <= 63 {
            zz[63] == 0
        } else {
            zeros + 1 > 0
        };
        if i == 63 {
            assert(has);
        }
        if has {
            assert(toks.len() >= 1 && toks.last() == spec_eob());
            assert forall|t: int| 0 <= t < toks.len() - 1 implies #[trigger] toks[t]
                != spec_eob() by {
                assert(toks[t] == rest[t]);
            }
        } else {
            assert forall|t: int| 0 <= t < toks.len() implies #[trigger] toks[t] != spec_eob() by {
                assert(toks[t] == rest[t]);
            }
        }
    } else {
        let head = if zeros >= 16 {
            spec_zrl()
        } else {
            spec_ac_token(zeros, zz[i] as int)
        };
        let rest = if zeros >= 16 {
            spec_ac_tokens(zz, i, zeros - 16)
        } else {
            spec_ac_tokens(zz, i + 1, 0)
        };
        if zeros >= 16 {
            lemma_ac_tokens_eob(zz, i, zeros - 16);
        } else {
            lemma_ac_tokens_eob(zz, i + 1, 0);
        }
        assert(toks == seq![head] + rest);
        assert(toks.len() == 1 + rest.len());
        assert(head != spec_eob()) by {
            if zeros >= 16 {
            } else {
                let v = zz[i] as int;
                let size = spec_bit_length(spec_abs(v));
                lemma_bit_length_bounds(spec_abs(v));
                assert(size >= 1);
                lemma_bit_length_monotone(spec_abs(v), 32768);
                assert(spec_bit_length(32768) == 16) by {
                    reveal_with_fuel(spec_bit_length, 18);
                }
                if size <= 15 {
                    assert(0 < zeros * 16 + size <= 255) by (nonlinear_arith)
                        requires
                            0 <= zeros < 16 && 1 <= size <= 15,
                    ;
                } else {
                    vstd::arithmetic::power2::lemma2_to64();
                    assert(v == -32768);
                    assert(spec_ac_token(zeros, v).amplitude == 32767);
                }
            }
        }
        let has_rest = if (if zeros >= 16 {
            i
        } else {
            i + 1
        }) <= 63 {
            zz[63] == 0
        } else {
            (if zeros >= 16 {
                zeros - 16
            } else {
                0
            }) > 0
        };
        if i == 63 && zeros < 16 {
            assert(!has_rest);
        }
        if has_rest {
            assert(toks.len() >= 2);
            assert(toks.last() == rest.last());
            assert forall|t: int| 0 <= t < toks.len() - 1 implies #[trigger] toks[t]
                != spec_eob() by {
                if t == 0 {
                    assert(toks[0] == head);
                } else {
                    assert(toks[t] == rest[t - 1]);
                }
            }
        } else {
            assert forall|t: int| 0 <= t < toks.len() implies #[trigger] toks[t] != spec_eob() by {
                if t == 0 {
                    assert(toks[0] == head);
                } else {
                    assert(toks[t] == rest[t - 1]);
                }
            }
        }
    }
}

/// The 64 coefficients of 8x8 block `(br, bc)` of a coefficient plane.
pub open spec fn spec_plane_block_i16(p: Seq<i16>, w: int, br: int, bc: int) -> Seq<i16> {
    Seq::new(64, |k: int| p[(8 * br + k / 8) * w + 8 * bc + k % 8])
}

/// Copy 8x8 block `(br, bc)` of a coefficient plane into a flat buffer.
fn read_coeff_block(m: &crate::pixel_matrix::PixelMatrix<i16>, br: usize, bc: usize) -> (r: Vec<
    i16,
>)
    requires
        m.wf(),
        m.width % 8 == 0,
        m.width >= 8,
        8 * bc + 8 <= m.width,
        8 * br + 8 <= m.height,
    ensures
        r@.len() == 64,
        r@ == spec_plane_block_i16(m.pixels@, m.width as int, br as int, bc as int),
{
    let w = m.width;
    let mut r: Vec<i16> = Vec::new();
    let mut k: usize = 0;
    while k < 64
        invariant
            m.wf(),
            w == m.width,
            m.width % 8 == 0,
            m.width >= 8,
            8 * bc + 8 <= m.width,
            8 * br + 8 <= m.height,
            k <= 64,
            r@.len() == k,
            forall|t: int|
                0 <= t < k ==> #[trigger] r@[t] == spec_plane_block_i16(
                    m.pixels@,
                    m.width as int,
                    br as int,
                    bc as int,
                )[t],
        decreases 64 - k,
    {
        proof {
            crate::dct_quant::lemma_cell_coords(w as int, br as int, bc as int, k as int);
            crate::pixel_matrix::lemma_index_in_plane(
                8 * br + k as int / 8,
                8 * bc + k as int % 8,
                m.width as int,
                m.height as int,
            );
        }
        let row = 8 * br + k / 8;
        let col = 8 * bc + k % 8;
        let v = m.pixels[row * w + col];
        r.push(v);
        k = k + 1;
    }
    proof {
        assert(r@ =~= spec_plane_block_i16(m.pixels@, m.width as int, br as int, bc as int));
    }
    r
}

/// Every token of a block's run-length sequence carries a nonnegative
/// amplitude.
pub proof fn lemma_rl_tokens_nonneg(coeffs: Seq<i16>, prev: int)
    requires
        coeffs.len() == 64,
        forall|k: int| 0 <= k < 64 ==> -16384 <= #[trigger] coeffs[k] <= 16383,
        -16384 <= prev <= 16383,
    ensures
        forall|t: int|
            0 <= t < spec_rl_tokens(coeffs, prev).len() ==> (#[trigger] spec_rl_tokens(
                coeffs,
                prev,
            )[t]).amplitude >= 0,
{
    lemma_amplitude_in_range(coeffs[0] - prev);
    lemma_amplitude_fits(coeffs[0] - prev);
    assert(forall|k: int| 0 <= k < 64 ==> #[trigger] spec_zig_zag_map()[k] < 64);
    assert(forall|k: int|
        0 <= k < 64 ==> -16384 <= #[trigger] spec_zigzag_seq(coeffs)[k] <= 16383);
    lemma_ac_tokens_nonneg(spec_zigzag_seq(coeffs), 1, 0);
    let toks = spec_rl_tokens(coeffs, prev);
    let acs = spec_ac_tokens(spec_zigzag_seq(coeffs), 1, 0);
    assert forall|t: int| 0 <= t < toks.len() implies (#[trigger] toks[t]).amplitude >= 0 by {
        if t == 0 {
        } else {
            assert(toks[t] == acs[t - 1]);
        }
    }
}

/// Every AC token carries a nonnegative amplitude.
proof fn lemma_ac_tokens_nonneg(zz: Seq<i16>, i: int, zeros: int)
    requires
        zz.len() == 64,
        forall|k: int| 0 <= k < 64 ==> -16384 <= #[trigger] zz[k] <= 16383,
        1 <= i <= 64,
        zeros >= 0,
    ensures
        forall|t: int|
            0 <= t < spec_ac_tokens(zz, i, zeros).len() ==> (#[trigger] spec_ac_tokens(
                zz,
                i,
                zeros,
            )[t]).amplitude >= 0,
    decreases 64 - i, zeros,
{
    let toks = spec_ac_tokens(zz, i, zeros);
    if i >= 64 {
    } else if zz[i] == 0 {
        lemma_ac_tokens_nonneg(zz, i + 1, zeros + 1);
        assert forall|t: int| 0 <= t < toks.len() implies (#[trigger] toks[t]).amplitude >= 0 by {
            assert(toks[t] == spec_ac_tokens(zz, i + 1, zeros + 1)[t]);
        }
    } else if zeros >= 16 {
        lemma_ac_tokens_nonneg(zz, i, zeros - 16);
        assert forall|t: int| 0 <= t < toks.len() implies (#[trigger] toks[t]).amplitude >= 0 by {
            if t > 0 {
                assert(toks[t] == spec_ac_tokens(zz, i, zeros - 16)[t - 1]);
            }
        }
    } else {
        lemma_ac_tokens_nonneg(zz, i + 1, 0);
        lemma_amplitude_in_range(zz[i] as int);
        lemma_amplitude_fits(zz[i] as int);
        assert forall|t: int| 0 <= t < toks.len() implies (#[trigger] toks[t]).amplitude >= 0 by {
            if t > 0 {
                assert(toks[t] == spec_ac_tokens(zz, i + 1, 0)[t - 1]);
            }
        }
    }
}

/// The outcome of entropy-coding a scan: the bit stream, or the first
/// fatal condition met.
pub ghost enum ScanOutcome {
    Bits(Seq<bool>),
    Overflow,
    Missing,
}

/// How many MCUs cover the image: one per 8x8 chrominance block.
pub open spec fn spec_mcu_count(img: crate::jpeg_image::JpegImage) -> int {
    (img.spec_downsampled_width() / 8) * (img.spec_downsampled_height() / 8)
}

/// How many 8x8 blocks one scan visits: `hf * vf` luminance blocks and the
/// two chrominance blocks per MCU.
pub open spec fn spec_scan_total(img: crate::jpeg_image::JpegImage) -> int {
    let hv = crate::jpeg_image::spec_hf(img.chrominance_downsampling_ratio)
        * crate::jpeg_image::spec_vf(img.chrominance_downsampling_ratio);
    spec_mcu_count(img) * (hv + 2)
}

/// The component of scan step `t`: 0 for a luminance block, 1 for Cb,
/// 2 for Cr.
pub open spec fn spec_scan_comp(img: crate::jpeg_image::JpegImage, t: int) -> int {
    let hv = crate::jpeg_image::spec_hf(img.chrominance_downsampling_ratio)
        * crate::jpeg_image::spec_vf(img.chrominance_downsampling_ratio);
    let pos = t % (hv + 2);
    if pos < hv {
        0
    } else if pos == hv {
        1
    } else {
        2
    }
}

/// The coefficients of scan step `t`: within one MCU, its `hf * vf`
/// luminance blocks in raster order, then its Cb and Cr blocks.
pub open spec fn spec_scan_coeffs(img: crate::jpeg_image::JpegImage, t: int) -> Seq<i16> {
    let hf = crate::jpeg_image::spec_hf(img.chrominance_downsampling_ratio);
    let vf = crate::jpeg_image::spec_vf(img.chrominance_downsampling_ratio);
    let hv = hf * vf;
    let mcu = t / (hv + 2);
    let pos = t % (hv + 2);
    let mpr = img.spec_downsampled_width() / 8;
    let mr = mcu / mpr;
    let mc = mcu % mpr;
    if pos < hv {
        spec_plane_block_i16(
            img.y_dct_coeffs.pixels@,
            img.spec_padded_width(),
            mr * vf + pos / hf,
            mc * hf + pos % hf,
        )
    } else if pos == hv {
        spec_plane_block_i16(img.cb_dct_coeffs.pixels@, img.spec_downsampled_width(), mr, mc)
    } else {
        spec_plane_block_i16(img.cr_dct_coeffs.pixels@, img.spec_downsampled_width(), mr, mc)
    }
}

/// The entropy coding of the scan from step `t` on, with the given DC
/// predictors: each block is run-length encoded against its component's
/// predictor and Huffman coded under the standard tables (luminance tables
/// for luminance blocks, chrominance tables otherwise); a size category
/// over the baseline limit stops the scan with `Overflow`, a symbol absent
/// from its table with `Missing`.
pub open spec fn spec_encode_scan_from(
    img: crate::jpeg_image::JpegImage,
    t: int,
    py: int,
    pcb: int,
    pcr: int,
) -> ScanOutcome
    decreases spec_scan_total(img) - t,
{
    if t < 0 || t >= spec_scan_total(img) {
        ScanOutcome::Bits(Seq::empty())
    } else {
        let comp = spec_scan_comp(img, t);
        let coeffs = spec_scan_coeffs(img, t);
        let prev = if comp == 0 {
            py
        } else if comp == 1 {
            pcb
        } else {
            pcr
        };
        let dc_table = if comp == 0 {
            crate::huffman_tables::spec_y_dc_table()
        } else {
            crate::huffman_tables::spec_ch_dc_table()
        };
        let ac_table = if comp == 0 {
            crate::huffman_tables::spec_y_ac_table()
        } else {
            crate::huffman_tables::spec_ch_ac_table()
        };
        if !spec_block_sizes_ok(coeffs, prev) {
            ScanOutcome::Overflow
        } else {
            let toks = spec_rl_tokens(coeffs, prev);
            if !spec_tokens_encodable(toks, dc_table, ac_table) {
                ScanOutcome::Missing
            } else {
                let npy = if comp == 0 {
                    coeffs[0] as int
                } else {
                    py
                };
                let npcb = if comp == 1 {
                    coeffs[0] as int
                } else {
                    pcb
                };
                let npcr = if comp == 2 {
                    coeffs[0] as int
                } else {
                    pcr
                };
                match spec_encode_scan_from(img, t + 1, npy, npcb, npcr) {
                    ScanOutcome::Bits(rest) => ScanOutcome::Bits(
                        spec_tokens_bits(toks, dc_table, ac_table) + rest,
                    ),
                    ScanOutcome::Overflow => ScanOutcome::Overflow,
                    ScanOutcome::Missing => ScanOutcome::Missing,
                }
            }
        }
    }
}

/// The entropy coding of the whole scan, all DC predictors starting at
/// zero.
pub open spec fn spec_encode_scan(img: crate::jpeg_image::JpegImage) -> ScanOutcome {
    spec_encode_scan_from(img, 0, 0, 0, 0)
}

/// The bit stream of a successful scan outcome.
pub open spec fn spec_scan_bits(o: ScanOutcome) -> Seq<bool> {
    match o {
        ScanOutcome::Bits(b) => b,
        ScanOutcome::Overflow => Seq::empty(),
        ScanOutcome::Missing => Seq::empty(),
    }
}

/// An MCU-padded plane relates to its downsampled companion: both divide
/// into whole 8x8 blocks and the block grids nest by the factor.
pub proof fn lemma_scan_geometry(p: int, f: int)
    requires
        f == 1 || f == 2,
        p % (8 * f) == 0,
        p >= 1,
    ensures
        p % 8 == 0,
        p >= 8,
        (p / f) % 8 == 0,
        p / f >= 8,
        f * (p / f) == p,
        p / 8 == f * ((p / f) / 8),
        8 * ((p / f) / 8) == p / f,
        (p / f) / 8 >= 1,
{
    crate::dct_quant::lemma_mcu_geometry(p, f);
    vstd::arithmetic::div_mod::lemma_fundamental_div_mod(p, 8 * f);
    let q = p / (8 * f);
    assert(p == (8 * f) * q);
    assert(q >= 1 && p == 8 * (f * q) && p / f == 8 * q) by (nonlinear_arith)
        requires
            p == (8 * f) * q && p >= 1 && (f == 1 || f == 2) && f * (p / f) == p,
    ;
    vstd::arithmetic::div_mod::lemma_fundamental_div_mod_converse(p, 8, f * q, 0);
    vstd::arithmetic::div_mod::lemma_fundamental_div_mod_converse(p / f, 8, q, 0);
}

impl crate::jpeg_image::JpegImage {
    /// Entropy-code the coefficient planes in MCU-interleaved order into
    /// the bit buffer: per MCU, the `hf * vf` luminance blocks in raster
    /// order, then the Cb and Cr blocks, each with differential DC coding,
    /// zig-zag run-length folding, and the standard Huffman tables.
    #[verifier::rlimit(100)]
    pub fn generate_entropy_encoded_data(&mut self) -> (r: Result<(), crate::JpegError>)
        requires
            old(self).wf_config(),
            old(self).coeffs_shape(),
            forall|j: int|
                0 <= j < old(self).y_dct_coeffs.pixels@.len() ==> -16384 <= #[trigger] old(
                    self,
                ).y_dct_coeffs.pixels@[j] <= 16383,
            forall|j: int|
                0 <= j < old(self).cb_dct_coeffs.pixels@.len() ==> -16384 <= #[trigger] old(
                    self,
                ).cb_dct_coeffs.pixels@[j] <= 16383,
            forall|j: int|
                0 <= j < old(self).cr_dct_coeffs.pixels@.len() ==> -16384 <= #[trigger] old(
                    self,
                ).cr_dct_coeffs.pixels@[j] <= 16383,
        ensures
            final(self).path == old(self).path,
            final(self).width == old(self).width,
            final(self).height == old(self).height,
            final(self).chrominance_downsampling_ratio
                == old(self).chrominance_downsampling_ratio,
            final(self).dct_algorithm == old(self).dct_algorithm,
            final(self).y_channel == old(self).y_channel,
            final(self).cb_channel == old(self).cb_channel,
            final(self).cr_channel == old(self).cr_channel,
            final(self).y_dct_coeffs == old(self).y_dct_coeffs,
            final(self).cb_dct_coeffs == old(self).cb_dct_coeffs,
            final(self).cr_dct_coeffs == old(self).cr_dct_coeffs,
            (r is Ok) == (spec_encode_scan(*old(self)) is Bits),
            r is Ok ==> final(self).entropy_coded_bits@ == old(self).entropy_coded_bits@
                + spec_scan_bits(spec_encode_scan(*old(self))),
            (r == Err::<(), crate::JpegError>(crate::JpegError::CoefficientOverflow)) == (
            spec_encode_scan(*old(self)) is Overflow),
            (r == Err::<(), crate::JpegError>(crate::JpegError::MissingHuffmanCode)) == (
            spec_encode_scan(*old(self)) is Missing),
    {
        let ghost img0 = *old(self);
        let ghost full = spec_encode_scan(img0);
        let tables = crate::huffman_tables::initialize_huffman_tables();
        let (hf, vf) = Self::get_downsampling_factor(self.chrominance_downsampling_ratio);
        proof {
            crate::jpeg_image::lemma_pad_to_multiple(self.width as int, 8 * hf as int);
            crate::jpeg_image::lemma_pad_to_multiple(self.height as int, 8 * vf as int);
            lemma_scan_geometry(self.spec_padded_width(), hf as int);
            lemma_scan_geometry(self.spec_padded_height(), vf as int);
        }
        let yw = self.y_dct_coeffs.width;
        let dw = self.cb_dct_coeffs.width;
        let dh = self.cb_dct_coeffs.height;
        let mpr = dw / 8;
        let mrows = dh / 8;
        proof {
            vstd::arithmetic::div_mod::lemma_div_is_ordered_by_denominator(
                self.spec_padded_width(),
                1,
                hf as int,
            );
            vstd::arithmetic::div_mod::lemma_div_is_ordered_by_denominator(
                self.spec_padded_height(),
                1,
                vf as int,
            );
            assert(dw <= 65551 && dh <= 65551);
            vstd::arithmetic::div_mod::lemma_div_is_ordered(dw as int, 65551, 8);
            vstd::arithmetic::div_mod::lemma_div_is_ordered(dh as int, 65551, 8);
            assert(mpr <= 8194 && mrows <= 8194);
            assert(mpr * mrows * 6 <= 0x1000_0000 * 6 && mpr * mrows <= 0x1000_0000)
                by (nonlinear_arith)
                requires
                    0 <= mpr <= 8200 && 0 <= mrows <= 8200,
            ;
        }
        let n_mcus = mpr * mrows;
        proof {
            assert(hf * vf <= 4) by (nonlinear_arith)
                requires
                    1 <= hf <= 2 && 1 <= vf <= 2,
            ;
        }
        let hv = hf * vf;
        let hv2 = hv + 2;
        proof {
            assert(n_mcus * hv2 <= 0x1000_0000 * 6) by (nonlinear_arith)
                requires
                    0 <= n_mcus <= 0x1000_0000 && 0 <= hv2 <= 6,
            ;
        }
        let total = n_mcus * hv2;
        proof {
            assert(total == n_mcus * (hv as int + 2) && total <= 0x1000_0000 * 6)
                by (nonlinear_arith)
                requires
                    total == n_mcus * hv2 && hv2 == hv + 2 && hv == hf * vf && 1 <= hf <= 2 && 1
                        <= vf <= 2 && 0 <= n_mcus <= 0x1000_0000,
            ;
            assert(spec_scan_total(img0) == total);
        }
        let mut prev_y: i16 = 0;
        let mut prev_cb: i16 = 0;
        let mut prev_cr: i16 = 0;
        let mut rl_buf: Vec<RunLength> = Vec::new();
        let ghost mut acc: Seq<bool> = Seq::empty();
        let mut t: usize = 0;
        proof {
            assert(self.entropy_coded_bits@ =~= old(self).entropy_coded_bits@ + acc);
        }
        while t < total
            invariant
                self.path == old(self).path,
                self.width == old(self).width,
                self.height == old(self).height,
                self.chrominance_downsampling_ratio == old(self).chrominance_downsampling_ratio,
                self.dct_algorithm == old(self).dct_algorithm,
                self.y_channel == old(self).y_channel,
                self.cb_channel == old(self).cb_channel,
                self.cr_channel == old(self).cr_channel,
                self.y_dct_coeffs == old(self).y_dct_coeffs,
                self.cb_dct_coeffs == old(self).cb_dct_coeffs,
                self.cr_dct_coeffs == old(self).cr_dct_coeffs,
                img0 == *old(self),
                full == spec_encode_scan(img0),
                old(self).wf_config(),
                old(self).coeffs_shape(),
                forall|j: int|
                    0 <= j < old(self).y_dct_coeffs.pixels@.len() ==> -16384 <= #[trigger] old(
                        self,
                    ).y_dct_coeffs.pixels@[j] <= 16383,
                forall|j: int|
                    0 <= j < old(self).cb_dct_coeffs.pixels@.len() ==> -16384 <= #[trigger] old(
                        self,
                    ).cb_dct_coeffs.pixels@[j] <= 16383,
                forall|j: int|
                    0 <= j < old(self).cr_dct_coeffs.pixels@.len() ==> -16384 <= #[trigger] old(
                        self,
                    ).cr_dct_coeffs.pixels@[j] <= 16383,
                tables.wf(),
                hf == crate::jpeg_image::spec_hf(img0.chrominance_downsampling_ratio),
                vf == crate::jpeg_image::spec_vf(img0.chrominance_downsampling_ratio),
                hv == hf * vf,
                hv2 == hv + 2,
                1 <= hf <= 2,
                1 <= vf <= 2,
                yw == img0.spec_padded_width(),
                dw == img0.spec_downsampled_width(),
                dh == img0.spec_downsampled_height(),
                yw % 8 == 0,
                yw >= 8,
                dw % 8 == 0,
                dw >= 8,
                dh % 8 == 0,
                dh >= 8,
                img0.spec_padded_height() % 8 == 0,
                img0.spec_padded_height() >= 8,
                mpr == dw as int / 8,
                mrows == dh as int / 8,
                8 * mpr == dw,
                8 * mrows == dh,
                yw as int / 8 == hf * mpr,
                8 * (yw as int / 8) == yw,
                img0.spec_padded_height() / 8 == vf * mrows,
                8 * (img0.spec_padded_height() / 8) == img0.spec_padded_height(),
                img0.y_dct_coeffs.height == img0.spec_padded_height(),
                n_mcus == mpr * mrows,
                total == n_mcus * hv2,
                total == spec_scan_total(img0),
                t <= total,
                -16384 <= prev_y <= 16383,
                -16384 <= prev_cb <= 16383,
                -16384 <= prev_cr <= 16383,
                self.entropy_coded_bits@ == old(self).entropy_coded_bits@ + acc,
                full == (match spec_encode_scan_from(
                    img0,
                    t as int,
                    prev_y as int,
                    prev_cb as int,
                    prev_cr as int,
                ) {
                    ScanOutcome::Bits(rest) => ScanOutcome::Bits(acc + rest),
                    ScanOutcome::Overflow => ScanOutcome::Overflow,
                    ScanOutcome::Missing => ScanOutcome::Missing,
                }),
            decreases total - t,
        {
            proof {
                crate::pixel_matrix::lemma_div_below(t as int, hv2 as int, n_mcus as int);
                vstd::arithmetic::div_mod::lemma_mod_bound(t as int, hv2 as int);
            }
            let mcu = t / hv2;
            let pos = t % hv2;
            proof {
                crate::pixel_matrix::lemma_div_below(mcu as int, mpr as int, mrows as int);
                vstd::arithmetic::div_mod::lemma_mod_bound(mcu as int, mpr as int);
            }
            let mr = mcu / mpr;
            let mc = mcu % mpr;
            let ghost prevs = (prev_y as int, prev_cb as int, prev_cr as int);
            let (comp, block) = if pos < hv {
                proof {
                    crate::pixel_matrix::lemma_div_below(pos as int, hf as int, vf as int);
                    vstd::arithmetic::div_mod::lemma_mod_bound(pos as int, hf as int);
                    assert(mr * vf + (pos as int) / (hf as int) < vf * mrows && mc * hf + (
                    pos as int) % (hf as int) < hf * mpr) by (nonlinear_arith)
                        requires
                            mr < mrows && mc < mpr && 0 <= (pos as int) / (hf as int) < vf && 0
                                <= (pos as int) % (hf as int) < hf && 1 <= hf && 1 <= vf && 0
                                <= mr && 0 <= mc,
                    ;
                    assert(8 * (mr * vf + (pos as int) / (hf as int)) + 8 <= 8 * (vf * mrows) && 8
                        * (mc * hf + (pos as int) % (hf as int)) + 8 <= 8 * (hf * mpr))
                        by (nonlinear_arith)
                        requires
                            mr * vf + (pos as int) / (hf as int) < vf * mrows && mc * hf + (
                            pos as int) % (hf as int) < hf * mpr,
                    ;
                }
                let br = mr * vf + pos / hf;
                let bc = mc * hf + pos % hf;
                let b = read_coeff_block(&self.y_dct_coeffs, br, bc);
                proof {
                    assert forall|k2: int| 0 <= k2 < 64 implies -16384 <= #[trigger] b@[k2]
                        <= 16383 by {
                        crate::dct_quant::lemma_cell_coords(yw as int, br as int, bc as int, k2);
                        crate::pixel_matrix::lemma_index_in_plane(
                            8 * br + k2 / 8,
                            8 * bc + k2 % 8,
                            yw as int,
                            img0.spec_padded_height(),
                        );
                    }
                }
                (0usize, b)
            } else if pos == hv {
                proof {
                    assert(8 * mr + 8 <= 8 * mrows && 8 * mc + 8 <= 8 * mpr) by (nonlinear_arith)
                        requires
                            mr < mrows && mc < mpr,
                    ;
                }
                let b = read_coeff_block(&self.cb_dct_coeffs, mr, mc);
                proof {
                    assert forall|k2: int| 0 <= k2 < 64 implies -16384 <= #[trigger] b@[k2]
                        <= 16383 by {
                        crate::dct_quant::lemma_cell_coords(dw as int, mr as int, mc as int, k2);
                        crate::pixel_matrix::lemma_index_in_plane(
                            8 * mr + k2 / 8,
                            8 * mc + k2 % 8,
                            dw as int,
                            dh as int,
                        );
                    }
                }
                (1usize, b)
            } else {
                proof {
                    assert(8 * mr + 8 <= 8 * mrows && 8 * mc + 8 <= 8 * mpr) by (nonlinear_arith)
                        requires
                            mr < mrows && mc < mpr,
                    ;
                }
                let b = read_coeff_block(&self.cr_dct_coeffs, mr, mc);
                proof {
                    assert forall|k2: int| 0 <= k2 < 64 implies -16384 <= #[trigger] b@[k2]
                        <= 16383 by {
                        crate::dct_quant::lemma_cell_coords(dw as int, mr as int, mc as int, k2);
                        crate::pixel_matrix::lemma_index_in_plane(
                            8 * mr + k2 / 8,
                            8 * mc + k2 % 8,
                            dw as int,
                            dh as int,
                        );
                    }
                }
                (2usize, b)
            };
            proof {
                assert(comp == spec_scan_comp(img0, t as int));
                assert(block@ == spec_scan_coeffs(img0, t as int));
            }
            rl_buf.clear();
            let rl_result = if comp == 0 {
                runlength_encode(&mut prev_y, &block, &mut rl_buf)
            } else if comp == 1 {
                runlength_encode(&mut prev_cb, &block, &mut rl_buf)
            } else {
                runlength_encode(&mut prev_cr, &block, &mut rl_buf)
            };
            let ghost prev_used = if comp == 0 {
                prevs.0
            } else if comp == 1 {
                prevs.1
            } else {
                prevs.2
            };
            if rl_result.is_err() {
                proof {
                    assert(!spec_block_sizes_ok(block@, prev_used));
                    assert(spec_encode_scan_from(img0, t as int, prevs.0, prevs.1, prevs.2)
                        is Overflow);
                }
                return Err(crate::JpegError::CoefficientOverflow);
            }
            proof {
                assert(rl_buf@ == spec_rl_tokens(block@, prev_used));
                lemma_rl_tokens_nonneg(block@, prev_used);
            }
            let hm_result = if comp == 0 {
                huffman_encode(&rl_buf, &mut self.entropy_coded_bits, &tables.ydc, &tables.yac)
            } else {
                huffman_encode(&rl_buf, &mut self.entropy_coded_bits, &tables.chdc, &tables.chac)
            };
            let ghost dc_spec = if comp == 0 {
                crate::huffman_tables::spec_y_dc_table()
            } else {
                crate::huffman_tables::spec_ch_dc_table()
            };
            let ghost ac_spec = if comp == 0 {
                crate::huffman_tables::spec_y_ac_table()
            } else {
                crate::huffman_tables::spec_ch_ac_table()
            };
            if hm_result.is_err() {
                proof {
                    assert(!spec_tokens_encodable(rl_buf@, dc_spec, ac_spec));
                    assert(spec_encode_scan_from(img0, t as int, prevs.0, prevs.1, prevs.2)
                        is Missing);
                }
                return Err(crate::JpegError::MissingHuffmanCode);
            }
            proof {
                let tb = spec_tokens_bits(rl_buf@, dc_spec, ac_spec);
                assert(self.entropy_coded_bits@ == old(self).entropy_coded_bits@ + acc + tb);
                assert(self.entropy_coded_bits@ =~= old(self).entropy_coded_bits@ + (acc + tb));
                let next = spec_encode_scan_from(
                    img0,
                    t as int + 1,
                    if comp == 0 {
                        block@[0] as int
                    } else {
                        prevs.0
                    },
                    if comp == 1 {
                        block@[0] as int
                    } else {
                        prevs.1
                    },
                    if comp == 2 {
                        block@[0] as int
                    } else {
                        prevs.2
                    },
                );
                assert(spec_encode_scan_from(img0, t as int, prevs.0, prevs.1, prevs.2) == (
                match next {
                    ScanOutcome::Bits(rest) => ScanOutcome::Bits(tb + rest),
                    ScanOutcome::Overflow => ScanOutcome::Overflow,
                    ScanOutcome::Missing => ScanOutcome::Missing,
                }));
                if next is Bits {
                    assert((acc + tb) + spec_scan_bits(next) =~= acc + (tb + spec_scan_bits(
                        next,
                    )));
                }
                acc = acc + tb;
            }
            t = t + 1;
        }
        proof {
            assert(spec_encode_scan_from(
                img0,
                total as int,
                prev_y as int,
                prev_cb as int,
                prev_cr as int,
            ) == ScanOutcome::Bits(Seq::<bool>::empty()));
            assert(acc + Seq::<bool>::empty() =~= acc);
            assert(full == ScanOutcome::Bits(acc));
        }
        Ok(())
    }
}

} // verus!
