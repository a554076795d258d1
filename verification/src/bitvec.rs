//! A growable MSB-first bit buffer for the entropy-coded segment.
//!
//! Bits are appended one at a time or as the low bits of an integer,
//! most-significant first. `to_bytes` packs the stream big-endian within
//! each byte, filling the low bits of a trailing partial byte with ones,
//! as the entropy segment's marker discipline asks.

use vstd::prelude::*;

verus! {

/// Bit `k` (counted from the least significant end) of a byte.
pub open spec fn spec_bit_u8(b: u8, k: u8) -> bool {
    b >> k & 1 == 1
}

/// The low `length` bits of `value`, most significant first.
pub open spec fn spec_bits_of(value: u32, length: int) -> Seq<bool> {
    Seq::new(length as nat, |i: int| value >> ((length - 1 - i) as u32) & 1 == 1)
}

/// 1 for a one bit in the stream, 0 for a zero bit; positions past the
/// end read as one, the padding of a trailing partial byte.
pub open spec fn spec_bit_val(bits: Seq<bool>, i: int) -> int {
    if 0 <= i < bits.len() {
        if bits[i] {
            1int
        } else {
            0int
        }
    } else {
        1int
    }
}

/// The `k`-th packed byte of the stream: eight consecutive bits, the
/// earliest in the most significant position.
pub open spec fn spec_byte_at(bits: Seq<bool>, k: int) -> int {
    128 * spec_bit_val(bits, 8 * k) + 64 * spec_bit_val(bits, 8 * k + 1) + 32 * spec_bit_val(
        bits,
        8 * k + 2,
    ) + 16 * spec_bit_val(bits, 8 * k + 3) + 8 * spec_bit_val(bits, 8 * k + 4) + 4 * spec_bit_val(
        bits,
        8 * k + 5,
    ) + 2 * spec_bit_val(bits, 8 * k + 6) + spec_bit_val(bits, 8 * k + 7)
}

/// A growable MSB-first bit sequence.
pub struct BitVec {
    bits: Vec<bool>,
}

impl View for BitVec {
    type V = Seq<bool>;

    closed spec fn view(&self) -> Seq<bool> {
        self.bits@
    }
}

impl BitVec {
    /// An empty bit buffer.
    pub fn new() -> (r: BitVec)
        ensures
            r@ == Seq::<bool>::empty(),
    {
        BitVec { bits: Vec::new() }
    }

    /// How many bits have been written.
    pub fn size(&self) -> (r: usize)
        ensures
            r == self@.len(),
    {
        self.bits.len()
    }

    /// Append the most significant bit of the byte sent.
    #[allow(non_snake_case)]
    pub fn writeBit(&mut self, b: u8)
        ensures
            final(self)@ == old(self)@.push(b >= 128),
    {
        self.bits.push(b >= 128);
    }

    /// Append the top `n` bits of `b`, most significant first.
    #[allow(non_snake_case)]
    pub fn writeBits(&mut self, b: u8, n: u8)
        requires
            n <= 8,
        ensures
            final(self)@ == old(self)@ + Seq::new(n as nat, |i: int| spec_bit_u8(b, (7 - i) as u8)),
    {
        let mut i: u8 = 0;
        while i < n
            invariant
                i <= n <= 8,
                self@ == old(self)@ + Seq::new(
                    i as nat,
                    |t: int| spec_bit_u8(b, (7 - t) as u8),
                ),
            decreases n - i,
        {
            let shifted: u8 = b << i;
            proof {
                assert((b << i >= 128) == (b >> (7 - i) as u8 & 1 == 1)) by (bit_vector)
                    requires
                        i < 8,
                ;
            }
            self.bits.push(shifted >= 128);
            proof {
                assert(self.bits@ =~= old(self)@ + Seq::new(
                    (i + 1) as nat,
                    |t: int| spec_bit_u8(b, (7 - t) as u8),
                ));
            }
            i = i + 1;
        }
    }

    /// The bit at stream position `i`, as 0 or 1; positions past the end
    /// read as 1, the padding bit.
    fn bit_or_one(&self, i: usize) -> (r: u8)
        ensures
            r == spec_bit_val(self@, i as int),
    {
        if i < self.bits.len() {
            if self.bits[i] {
                1
            } else {
                0
            }
        } else {
            1
        }
    }

    /// Pack the stream into bytes, the earliest bit in the most significant
    /// position of each byte; the low bits of a trailing partial byte are
    /// one.
    pub fn to_bytes(&self) -> (r: Vec<u8>)
        requires
            self@.len() <= usize::MAX - 8,
        ensures
            r@.len() == spec_div_ceil_bits(self@.len() as int),
            forall|k: int| 0 <= k < r@.len() ==> #[trigger] r@[k] == spec_byte_at(self@, k),
    {
        let n = self.bits.len();
        let nbytes = n / 8 + (if n % 8 == 0 {
            0
        } else {
            1
        });
        proof {
            vstd::arithmetic::div_mod::lemma_fundamental_div_mod(n as int, 8);
            vstd::arithmetic::div_mod::lemma_mod_bound(n as int, 8);
        }
        let mut r: Vec<u8> = Vec::new();
        let mut k: usize = 0;
        while k < nbytes
            invariant
                k <= nbytes,
                nbytes <= n / 8 + 1,
                n == self@.len(),
                n <= usize::MAX - 8,
                8 * (n as int / 8) <= n,
                r@.len() == k,
                forall|t: int| 0 <= t < k ==> #[trigger] r@[t] == spec_byte_at(self@, t),
            decreases nbytes - k,
        {
            let base = k * 8;
            proof {
                assert(k * 8 + 8 <= n + 8) by (nonlinear_arith)
                    requires
                        k <= (n as int) / 8 && 8 * ((n as int) / 8) <= n,
                ;
            }
            let byte: u8 = 128 * self.bit_or_one(base) + 64 * self.bit_or_one(base + 1) + 32
                * self.bit_or_one(base + 2) + 16 * self.bit_or_one(base + 3) + 8
                * self.bit_or_one(base + 4) + 4 * self.bit_or_one(base + 5) + 2 * self.bit_or_one(
                base + 6,
            ) + self.bit_or_one(base + 7);
            r.push(byte);
            k = k + 1;
        }
        proof {
            let q = n as int / 8;
            let rem = n as int % 8;
            if rem == 0 {
                vstd::arithmetic::div_mod::lemma_fundamental_div_mod_converse(n + 7, 8, q, 7);
            } else {
                vstd::arithmetic::div_mod::lemma_fundamental_div_mod_converse(
                    n + 7,
                    8,
                    q + 1,
                    rem - 1,
                );
            }
        }
        r
    }
}

/// How many bytes hold `n` bits: `ceil(n / 8)`.
pub open spec fn spec_div_ceil_bits(n: int) -> int {
    (n + 7) / 8
}

/// Append the low `length` bits of `value`, most significant bit first.
pub fn write_bits(bitvec: &mut BitVec, value: u32, length: u8)
    requires
        length <= 32,
    ensures
        final(bitvec)@ == old(bitvec)@ + spec_bits_of(value, length as int),
{
    let mut done: u8 = 0;
    while done < length
        invariant
            done <= length <= 32,
            bitvec@ == old(bitvec)@ + Seq::new(
                done as nat,
                |t: int| value >> ((length - 1 - t) as u32) & 1 == 1,
            ),
        decreases length - done,
    {
        let i: u8 = length - 1 - done;
        let bit: u32 = (value >> (i as u32)) & 1;
        bitvec.writeBit(if bit == 1 {
            128
        } else {
            0
        });
        proof {
            assert(bitvec@ =~= old(bitvec)@ + Seq::new(
                (done + 1) as nat,
                |t: int| value >> ((length - 1 - t) as u32) & 1 == 1,
            ));
        }
        done = done + 1;
    }
    proof {
        assert(bitvec@ =~= old(bitvec)@ + spec_bits_of(value, length as int));
    }
}

} // verus!
