//! The four standard Huffman tables (JPEG Annex K) and canonical code
//! generation (Annex C).
//!
//! A table is a 17-entry cumulative offset vector over code lengths 1..=16,
//! a flat symbol array in canonical order, and a derived code array. Codes
//! are generated once from the length counts; the `k`-th code of length
//! `len` is `len` bits long and the codes of one length are consecutive
//! integers, the first being twice the successor of the last code of the
//! previous length.

use vstd::prelude::*;

verus! {

/// Which of the four standard tables.
#[derive(Clone, Copy, Debug, PartialEq, Eq, Structural)]
pub enum HuffmanTableType {
    YDC,
    CHDC,
    YAC,
    CHAC,
}

/// The mathematical content of a Huffman table.
pub ghost struct SpecHuffman {
    pub offsets: Seq<u8>,
    pub symbols: Seq<u8>,
    pub codes: Seq<u32>,
}

/// The offsets are cumulative from position `i` on.
pub open spec fn spec_offsets_sorted_from(offsets: Seq<u8>, i: int) -> bool
    decreases 16 - i,
{
    if i >= 16 {
        true
    } else {
        offsets[i] <= offsets[i + 1] && spec_offsets_sorted_from(offsets, i + 1)
    }
}

/// Well-formed table content: 17 cumulative offsets starting at 0, and one
/// symbol and one code slot per table entry.
pub open spec fn spec_huffman_wf(t: SpecHuffman) -> bool {
    &&& t.offsets.len() == 17
    &&& t.offsets[0] == 0
    &&& spec_offsets_sorted_from(t.offsets, 0)
    &&& t.symbols.len() == t.offsets[16]
    &&& t.codes.len() == t.offsets[16]
}

/// Adjacent offsets are ordered.
pub proof fn lemma_sorted_pair(offsets: Seq<u8>, from: int, i: int)
    requires
        spec_offsets_sorted_from(offsets, from),
        from <= i < 16,
    ensures
        offsets[i] <= offsets[i + 1],
    decreases i - from,
{
    if from < i {
        lemma_sorted_pair(offsets, from + 1, i);
    }
}

/// Offsets are ordered across any span.
pub proof fn lemma_sorted_le(offsets: Seq<u8>, a: int, b: int)
    requires
        spec_offsets_sorted_from(offsets, 0),
        0 <= a <= b <= 16,
    ensures
        offsets[a] <= offsets[b],
    decreases b - a,
{
    if a < b {
        lemma_sorted_pair(offsets, 0, b - 1);
        lemma_sorted_le(offsets, a, b - 1);
    }
}

/// The first canonical code value of length class `i` (class `i` holds the
/// codes of bit length `i + 1`).
pub open spec fn spec_class_base(offsets: Seq<u8>, i: int) -> int
    decreases i,
{
    if i <= 0 {
        0
    } else {
        2 * (spec_class_base(offsets, i - 1) + offsets[i] - offsets[i - 1])
    }
}

/// The length class that table position `j` belongs to, scanning from `t`.
pub open spec fn spec_class_of_from(offsets: Seq<u8>, j: int, t: int) -> int
    decreases 16 - t,
{
    if t >= 16 {
        16
    } else if j < offsets[t + 1] {
        t
    } else {
        spec_class_of_from(offsets, j, t + 1)
    }
}

/// The length class of table position `j`.
pub open spec fn spec_class_of(offsets: Seq<u8>, j: int) -> int {
    spec_class_of_from(offsets, j, 0)
}

/// A position inside class `i` is classified as `i`.
pub proof fn lemma_class_of_range(offsets: Seq<u8>, i: int, j: int)
    requires
        spec_offsets_sorted_from(offsets, 0),
        0 <= i < 16,
        offsets[i] <= j < offsets[i + 1],
    ensures
        spec_class_of(offsets, j) == i,
{
    lemma_class_of_from_range(offsets, i, j, 0);
}

proof fn lemma_class_of_from_range(offsets: Seq<u8>, i: int, j: int, t: int)
    requires
        spec_offsets_sorted_from(offsets, 0),
        0 <= t <= i < 16,
        offsets[i] <= j < offsets[i + 1],
    ensures
        spec_class_of_from(offsets, j, t) == i,
    decreases i - t,
{
    if t < i {
        lemma_sorted_le(offsets, t + 1, i);
        lemma_class_of_from_range(offsets, i, j, t + 1);
    }
}

/// Every in-range position classifies below 16.
pub proof fn lemma_class_of_in_range(offsets: Seq<u8>, j: int)
    requires
        spec_offsets_sorted_from(offsets, 0),
        offsets.len() == 17,
        offsets[0] == 0,
        0 <= j < offsets[16],
    ensures
        0 <= spec_class_of(offsets, j) < 16,
        offsets[spec_class_of(offsets, j)] <= j < offsets[spec_class_of(offsets, j) + 1],
{
    lemma_class_of_in_range_from(offsets, j, 0);
}

proof fn lemma_class_of_in_range_from(offsets: Seq<u8>, j: int, t: int)
    requires
        spec_offsets_sorted_from(offsets, 0),
        offsets.len() == 17,
        0 <= t <= 15,
        offsets[t] <= j < offsets[16],
    ensures
        t <= spec_class_of_from(offsets, j, t) < 16,
        offsets[spec_class_of_from(offsets, j, t)] <= j,
        j < offsets[spec_class_of_from(offsets, j, t) + 1],
    decreases 16 - t,
{
    if j < offsets[t + 1] {
    } else {
        if t == 15 {
        } else {
            lemma_class_of_in_range_from(offsets, j, t + 1);
        }
    }
}

/// The canonical code array: the code at position `j` is the base code of
/// its length class plus its rank within the class.
pub open spec fn spec_canonical_codes(offsets: Seq<u8>, n: int) -> Seq<u32> {
    Seq::new(
        n as nat,
        |j: int|
            (spec_class_base(offsets, spec_class_of(offsets, j)) + j - offsets[spec_class_of(
                offsets,
                j,
            )]) as u32,
    )
}

/// The code and bit length for `sym`, scanning the table from position `j`:
/// the first matching position decides.
pub open spec fn spec_code_for(t: SpecHuffman, sym: u8, j: int) -> Option<(u32, u8)>
    decreases t.symbols.len() - j,
{
    if j < 0 || j >= t.symbols.len() {
        None
    } else if t.symbols[j] == sym {
        Some((t.codes[j], (spec_class_of(t.offsets, j) + 1) as u8))
    } else {
        spec_code_for(t, sym, j + 1)
    }
}

/// Scanning past a span without a match does not change the outcome.
pub proof fn lemma_code_for_skip(t: SpecHuffman, sym: u8, a: int, b: int)
    requires
        0 <= a <= b <= t.symbols.len(),
        forall|k: int| a <= k < b ==> t.symbols[k] != sym,
    ensures
        spec_code_for(t, sym, a) == spec_code_for(t, sym, b),
    decreases b - a,
{
    if a < b {
        lemma_code_for_skip(t, sym, a + 1, b);
    }
}

/// A symbol that occurs in the table is found.
pub proof fn lemma_code_for_some(t: SpecHuffman, sym: u8, a: int, j0: int)
    requires
        0 <= a <= j0 < t.symbols.len(),
        t.symbols[j0] == sym,
    ensures
        spec_code_for(t, sym, a) is Some,
    decreases j0 - a,
{
    if a < j0 && t.symbols[a] != sym {
        lemma_code_for_some(t, sym, a + 1, j0);
    }
}

/// A Huffman table: offsets, symbols in canonical order, derived codes, and
/// whether the codes have been generated.
pub struct HuffmanTable {
    pub offsets: Vec<u8>,
    pub symbols: Vec<u8>,
    pub codes: Vec<u32>,
    pub set: bool,
}

impl View for HuffmanTable {
    type V = SpecHuffman;

    open spec fn view(&self) -> SpecHuffman {
        SpecHuffman { offsets: self.offsets@, symbols: self.symbols@, codes: self.codes@ }
    }
}

impl HuffmanTable {
    /// Derive the canonical codes from the length counts (idempotent: the
    /// result depends on the offsets alone).
    pub fn generate_codes(&mut self)
        requires
            spec_huffman_wf(old(self)@),
        ensures
            spec_huffman_wf(final(self)@),
            final(self).offsets@ == old(self).offsets@,
            final(self).symbols@ == old(self).symbols@,
            final(self).codes@ == spec_canonical_codes(old(self).offsets@, old(self).symbols@.len() as int),
            final(self).set,
    {
        let ghost offs = self.offsets@;
        let ghost n = self.symbols@.len() as int;
        let mut code: u32 = 0;
        let mut i: usize = 0;
        while i < 16
            invariant
                spec_huffman_wf(old(self)@),
                offs == old(self).offsets@,
                self.offsets@ == offs,
                self.symbols@ == old(self).symbols@,
                self.set == old(self).set,
                n == self.symbols@.len(),
                self.codes@.len() == n,
                i <= 16,
                code == spec_class_base(offs, i as int),
                code <= vstd::arithmetic::power2::pow2(i as nat) * offs[i as int],
                forall|k: int|
                    0 <= k < offs[i as int] ==> #[trigger] self.codes@[k] == spec_canonical_codes(
                        offs,
                        n,
                    )[k],
            decreases 16 - i,
        {
            proof {
                vstd::arithmetic::power2::lemma2_to64();
                lemma_sorted_pair(offs, 0, i as int);
            }
            let lo = self.offsets[i];
            let hi = self.offsets[i + 1];
            let mut j: u8 = lo;
            while j < hi
                invariant
                    spec_huffman_wf(old(self)@),
                    offs == old(self).offsets@,
                    self.offsets@ == offs,
                    self.symbols@ == old(self).symbols@,
                    self.set == old(self).set,
                    n == self.symbols@.len(),
                    self.codes@.len() == n,
                    i < 16,
                    lo == offs[i as int],
                    hi == offs[i as int + 1],
                    lo <= j <= hi,
                    code == spec_class_base(offs, i as int) + j - lo,
                    code <= vstd::arithmetic::power2::pow2(i as nat) * offs[i as int] + (j - lo),
                    forall|k: int|
                        0 <= k < j ==> #[trigger] self.codes@[k]
                            == spec_canonical_codes(offs, n)[k],
                decreases hi - j,
            {
                proof {
                    vstd::arithmetic::power2::lemma2_to64();
                    assert(vstd::arithmetic::power2::pow2(i as nat) <= 0x8000) by {
                        vstd::arithmetic::power2::lemma_pow2_strictly_increases(
                            i as nat,
                            16,
                        );
                    }
                    lemma_sorted_le(offs, i as int + 1, 16);
                    assert(j < offs[16]);
                    lemma_class_of_range(offs, i as int, j as int);
                    let p = vstd::arithmetic::power2::pow2(i as nat) as int;
                    assert(p * offs[i as int] <= 0x8000 * 255) by (nonlinear_arith)
                        requires
                            0 <= p <= 0x8000 && 0 <= offs[i as int] <= 255,
                    ;
                }
                self.codes.set(j as usize, code);
                proof {
                    assert(self.codes@[j as int] == spec_canonical_codes(offs, n)[j as int]);
                }
                code = code + 1;
                j = j + 1;
            }
            proof {
                vstd::arithmetic::power2::lemma2_to64();
                assert(vstd::arithmetic::power2::pow2(i as nat) <= 0x8000) by {
                    vstd::arithmetic::power2::lemma_pow2_strictly_increases(i as nat, 16);
                }
                let p = vstd::arithmetic::power2::pow2(i as nat) as int;
                let c = offs[i as int + 1] - offs[i as int];
                assert(p * offs[i as int] <= 0x8000 * 255) by (nonlinear_arith)
                    requires
                        0 <= p <= 0x8000 && 0 <= offs[i as int] <= 255,
                ;
                assert(2 * (p * offs[i as int] + c) <= (2 * p) * offs[i as int + 1])
                    by (nonlinear_arith)
                    requires
                        offs[i as int] <= offs[i as int + 1] && p >= 1 && c == offs[i as int + 1]
                            - offs[i as int] && c >= 0,
                ;
                assert(vstd::arithmetic::power2::pow2((i + 1) as nat) == 2
                    * vstd::arithmetic::power2::pow2(i as nat)) by {
                    vstd::arithmetic::power2::lemma_pow2_unfold((i + 1) as nat);
                }
            }
            code = code * 2;
            i = i + 1;
        }
        self.set = true;
        proof {
            assert(final(self).codes@ =~= spec_canonical_codes(offs, n));
        }
    }

    /// Look up the canonical code and its bit length for a symbol: the first
    /// occurrence in the table decides, and absence gives `None`.
    pub fn get_code(&self, symbol: u8) -> (r: Option<(u32, u8)>)
        requires
            spec_huffman_wf(self@),
        ensures
            r == spec_code_for(self@, symbol, 0),
            r is Some ==> 1 <= (r->0).1 <= 16,
    {
        let ghost t = self@;
        let mut i: usize = 0;
        while i < 16
            invariant
                spec_huffman_wf(t),
                t == self@,
                i <= 16,
                spec_code_for(t, symbol, 0) == spec_code_for(t, symbol, self.offsets@[i as int] as int),
                forall|k: int| 0 <= k < t.offsets[i as int] ==> t.symbols[k] != symbol,
            decreases 16 - i,
        {
            proof {
                lemma_sorted_pair(self.offsets@, 0, i as int);
                lemma_sorted_le(self.offsets@, i as int + 1, 16);
            }
            let lo = self.offsets[i];
            let hi = self.offsets[i + 1];
            let mut j: u8 = lo;
            while j < hi
                invariant
                    spec_huffman_wf(t),
                    t == self@,
                    i < 16,
                    lo == t.offsets[i as int],
                    hi == t.offsets[i as int + 1],
                    hi <= t.offsets[16],
                    lo <= j <= hi,
                    spec_code_for(t, symbol, 0) == spec_code_for(t, symbol, j as int),
                    forall|k: int| 0 <= k < j ==> t.symbols[k] != symbol,
                decreases hi - j,
            {
                if self.symbols[j as usize] == symbol {
                    let code: u32 = self.codes[j as usize];
                    let code_length: u8 = (i as u8) + 1;
                    proof {
                        lemma_class_of_range(t.offsets, i as int, j as int);
                    }
                    return Some((code, code_length));
                }
                proof {
                    lemma_code_for_skip(t, symbol, j as int, j as int + 1);
                }
                j = j + 1;
            }
            i = i + 1;
        }
        proof {
            lemma_code_for_skip(t, symbol, t.offsets[16] as int, t.symbols.len() as int);
        }
        return None;
    }
}

/// The zig-zag scan order over an 8x8 block in row-major storage.
pub open spec fn spec_zig_zag_map() -> Seq<usize> {
    seq![
        0usize, 1, 8, 16, 9, 2, 3, 10, 17, 24, 32, 25, 18, 11, 4, 5, 12, 19, 26, 33, 40, 48, 41,
        34, 27, 20, 13, 6, 7, 14, 21, 28, 35, 42, 49, 56, 57, 50, 43, 36, 29, 22, 15, 23, 30, 37,
        44, 51, 58, 59, 52, 45, 38, 31, 39, 46, 53, 60, 61, 54, 47, 55, 62, 63,
    ]
}

/// The zig-zag permutation as a vector; every entry is below 64.
pub fn zig_zag_map() -> (r: Vec<usize>)
    ensures
        r@ == spec_zig_zag_map(),
        r@.len() == 64,
        forall|k: int| 0 <= k < 64 ==> #[trigger] r@[k] < 64,
{
    let v: Vec<usize> = vec![
        0, 1, 8, 16, 9, 2, 3, 10, 17, 24, 32, 25, 18, 11, 4, 5, 12, 19, 26, 33, 40, 48, 41, 34,
        27, 20, 13, 6, 7, 14, 21, 28, 35, 42, 49, 56, 57, 50, 43, 36, 29, 22, 15, 23, 30, 37, 44,
        51, 58, 59, 52, 45, 38, 31, 39, 46, 53, 60, 61, 54, 47, 55, 62, 63,
    ];
    proof {
        assert(v@ =~= spec_zig_zag_map());
    }
    v
}

/// The length counts of the luminance DC table, as cumulative offsets.
pub open spec fn spec_y_dc_offsets() -> Seq<u8> {
    seq![0u8, 0, 1, 6, 7, 8, 9, 10, 11, 12, 12, 12, 12, 12, 12, 12, 12]
}

/// The length counts of the chrominance DC table, as cumulative offsets.
pub open spec fn spec_ch_dc_offsets() -> Seq<u8> {
    seq![0u8, 0, 3, 4, 5, 6, 7, 8, 9, 10, 11, 12, 12, 12, 12, 12, 12]
}

/// The symbols of both DC tables: the twelve size categories in order.
pub open spec fn spec_dc_symbols() -> Seq<u8> {
    seq![0u8, 0x01, 0x02, 0x03, 0x04, 0x05, 0x06, 0x07, 0x08, 0x09, 0x0a, 0x0b]
}

/// The length counts of the luminance AC table, as cumulative offsets.
pub open spec fn spec_y_ac_offsets() -> Seq<u8> {
    seq![0u8, 0, 2, 3, 6, 9, 11, 15, 18, 23, 28, 32, 36, 36, 36, 37, 162]
}

/// The symbols of the luminance AC table in canonical order.
pub open spec fn spec_y_ac_symbols() -> Seq<u8> {
    seq![
        0x01u8, 0x02, 0x03, 0x00, 0x04, 0x11, 0x05, 0x12, 0x21, 0x31, 0x41, 0x06, 0x13, 0x51,
        0x61, 0x07, 0x22, 0x71, 0x14, 0x32, 0x81, 0x91, 0xa1, 0x08, 0x23, 0x42, 0xb1, 0xc1, 0x15,
        0x52, 0xd1, 0xf0, 0x24, 0x33, 0x62, 0x72, 0x82, 0x09, 0x0a, 0x16, 0x17, 0x18, 0x19, 0x1a,
        0x25, 0x26, 0x27, 0x28, 0x29, 0x2a, 0x34, 0x35, 0x36, 0x37, 0x38, 0x39, 0x3a, 0x43, 0x44,
        0x45, 0x46, 0x47, 0x48, 0x49, 0x4a, 0x53, 0x54, 0x55, 0x56, 0x57, 0x58, 0x59, 0x5a, 0x63,
        0x64, 0x65, 0x66, 0x67, 0x68, 0x69, 0x6a, 0x73, 0x74, 0x75, 0x76, 0x77, 0x78, 0x79, 0x7a,
        0x83, 0x84, 0x85, 0x86, 0x87, 0x88, 0x89, 0x8a, 0x92, 0x93, 0x94, 0x95, 0x96, 0x97, 0x98,
        0x99, 0x9a, 0xa2, 0xa3, 0xa4, 0xa5, 0xa6, 0xa7, 0xa8, 0xa9, 0xaa, 0xb2, 0xb3, 0xb4, 0xb5,
        0xb6, 0xb7, 0xb8, 0xb9, 0xba, 0xc2, 0xc3, 0xc4, 0xc5, 0xc6, 0xc7, 0xc8, 0xc9, 0xca, 0xd2,
        0xd3, 0xd4, 0xd5, 0xd6, 0xd7, 0xd8, 0xd9, 0xda, 0xe1, 0xe2, 0xe3, 0xe4, 0xe5, 0xe6, 0xe7,
        0xe8, 0xe9, 0xea, 0xf1, 0xf2, 0xf3, 0xf4, 0xf5, 0xf6, 0xf7, 0xf8, 0xf9, 0xfa,
    ]
}

/// The length counts of the chrominance AC table, as cumulative offsets.
pub open spec fn spec_ch_ac_offsets() -> Seq<u8> {
    seq![0u8, 0, 2, 3, 5, 9, 13, 16, 20, 27, 32, 36, 40, 40, 41, 43, 162]
}

/// The symbols of the chrominance AC table in canonical order.
pub open spec fn spec_ch_ac_symbols() -> Seq<u8> {
    seq![
        0x00u8, 0x01, 0x02, 0x03, 0x11, 0x04, 0x05, 0x21, 0x31, 0x06, 0x12, 0x41, 0x51, 0x07,
        0x61, 0x71, 0x13, 0x22, 0x32, 0x81, 0x08, 0x14, 0x42, 0x91, 0xa1, 0xb1, 0xc1, 0x09, 0x23,
        0x33, 0x52, 0xf0, 0x15, 0x62, 0x72, 0xd1, 0x0a, 0x16, 0x24, 0x34, 0xe1, 0x25, 0xf1, 0x17,
        0x18, 0x19, 0x1a, 0x26, 0x27, 0x28, 0x29, 0x2a, 0x35, 0x36, 0x37, 0x38, 0x39, 0x3a, 0x43,
        0x44, 0x45, 0x46, 0x47, 0x48, 0x49, 0x4a, 0x53, 0x54, 0x55, 0x56, 0x57, 0x58, 0x59, 0x5a,
        0x63, 0x64, 0x65, 0x66, 0x67, 0x68, 0x69, 0x6a, 0x73, 0x74, 0x75, 0x76, 0x77, 0x78, 0x79,
        0x7a, 0x82, 0x83, 0x84, 0x85, 0x86, 0x87, 0x88, 0x89, 0x8a, 0x92, 0x93, 0x94, 0x95, 0x96,
        0x97, 0x98, 0x99, 0x9a, 0xa2, 0xa3, 0xa4, 0xa5, 0xa6, 0xa7, 0xa8, 0xa9, 0xaa, 0xb2, 0xb3,
        0xb4, 0xb5, 0xb6, 0xb7, 0xb8, 0xb9, 0xba, 0xc2, 0xc3, 0xc4, 0xc5, 0xc6, 0xc7, 0xc8, 0xc9,
        0xca, 0xd2, 0xd3, 0xd4, 0xd5, 0xd6, 0xd7, 0xd8, 0xd9, 0xda, 0xe2, 0xe3, 0xe4, 0xe5, 0xe6,
        0xe7, 0xe8, 0xe9, 0xea, 0xf2, 0xf3, 0xf4, 0xf5, 0xf6, 0xf7, 0xf8, 0xf9, 0xfa,
    ]
}

/// The generated luminance DC table.
pub open spec fn spec_y_dc_table() -> SpecHuffman {
    SpecHuffman {
        offsets: spec_y_dc_offsets(),
        symbols: spec_dc_symbols(),
        codes: spec_canonical_codes(spec_y_dc_offsets(), 12),
    }
}

/// The generated chrominance DC table.
pub open spec fn spec_ch_dc_table() -> SpecHuffman {
    SpecHuffman {
        offsets: spec_ch_dc_offsets(),
        symbols: spec_dc_symbols(),
        codes: spec_canonical_codes(spec_ch_dc_offsets(), 12),
    }
}

/// The generated luminance AC table.
pub open spec fn spec_y_ac_table() -> SpecHuffman {
    SpecHuffman {
        offsets: spec_y_ac_offsets(),
        symbols: spec_y_ac_symbols(),
        codes: spec_canonical_codes(spec_y_ac_offsets(), 162),
    }
}

/// The generated chrominance AC table.
pub open spec fn spec_ch_ac_table() -> SpecHuffman {
    SpecHuffman {
        offsets: spec_ch_ac_offsets(),
        symbols: spec_ch_ac_symbols(),
        codes: spec_canonical_codes(spec_ch_ac_offsets(), 162),
    }
}

/// A vector of `n` zeroed code slots.
fn zero_codes(n: usize) -> (r: Vec<u32>)
    ensures
        r@.len() == n,
{
    let mut r: Vec<u32> = Vec::new();
    let mut i: usize = 0;
    while i < n
        invariant
            i <= n,
            r@.len() == i,
        decreases n - i,
    {
        r.push(0);
        i = i + 1;
    }
    r
}

/// The four standard tables, generated and ready for lookups.
pub struct HuffmanTableSet {
    pub ydc: HuffmanTable,
    pub chdc: HuffmanTable,
    pub yac: HuffmanTable,
    pub chac: HuffmanTable,
}

impl HuffmanTableSet {
    /// Every table is well formed, generated, and holds the standard
    /// content.
    pub open spec fn wf(self) -> bool {
        &&& spec_huffman_wf(self.ydc@)
        &&& spec_huffman_wf(self.chdc@)
        &&& spec_huffman_wf(self.yac@)
        &&& spec_huffman_wf(self.chac@)
        &&& self.ydc@ == spec_y_dc_table()
        &&& self.chdc@ == spec_ch_dc_table()
        &&& self.yac@ == spec_y_ac_table()
        &&& self.chac@ == spec_ch_ac_table()
        &&& self.ydc.set
        &&& self.chdc.set
        &&& self.yac.set
        &&& self.chac.set
    }

    /// The table of the given type, for lookups.
    pub fn get_huffman_table(&self, table_type: HuffmanTableType) -> (r: &HuffmanTable)
        ensures
            table_type == HuffmanTableType::YDC ==> r == &self.ydc,
            table_type == HuffmanTableType::CHDC ==> r == &self.chdc,
            table_type == HuffmanTableType::YAC ==> r == &self.yac,
            table_type == HuffmanTableType::CHAC ==> r == &self.chac,
    {
        match table_type {
            HuffmanTableType::YDC => &self.ydc,
            HuffmanTableType::CHDC => &self.chdc,
            HuffmanTableType::YAC => &self.yac,
            HuffmanTableType::CHAC => &self.chac,
        }
    }
}

/// Build the four standard tables and generate their canonical codes.
pub fn initialize_huffman_tables() -> (r: HuffmanTableSet)
    ensures
        r.wf(),
{
    let mut ydc = HuffmanTable {
        offsets: vec![0u8, 0, 1, 6, 7, 8, 9, 10, 11, 12, 12, 12, 12, 12, 12, 12, 12],
        symbols: vec![0u8, 0x01, 0x02, 0x03, 0x04, 0x05, 0x06, 0x07, 0x08, 0x09, 0x0a, 0x0b],
        codes: zero_codes(12),
        set: false,
    };
    let mut chdc = HuffmanTable {
        offsets: vec![0u8, 0, 3, 4, 5, 6, 7, 8, 9, 10, 11, 12, 12, 12, 12, 12, 12],
        symbols: vec![0u8, 0x01, 0x02, 0x03, 0x04, 0x05, 0x06, 0x07, 0x08, 0x09, 0x0a, 0x0b],
        codes: zero_codes(12),
        set: false,
    };
    let mut yac = HuffmanTable {
        offsets: vec![0u8, 0, 2, 3, 6, 9, 11, 15, 18, 23, 28, 32, 36, 36, 36, 37, 162],
        symbols: vec![
            0x01u8, 0x02, 0x03, 0x00, 0x04, 0x11, 0x05, 0x12, 0x21, 0x31, 0x41, 0x06, 0x13, 0x51,
            0x61, 0x07, 0x22, 0x71, 0x14, 0x32, 0x81, 0x91, 0xa1, 0x08, 0x23, 0x42, 0xb1, 0xc1,
            0x15, 0x52, 0xd1, 0xf0, 0x24, 0x33, 0x62, 0x72, 0x82, 0x09, 0x0a, 0x16, 0x17, 0x18,
            0x19, 0x1a, 0x25, 0x26, 0x27, 0x28, 0x29, 0x2a, 0x34, 0x35, 0x36, 0x37, 0x38, 0x39,
            0x3a, 0x43, 0x44, 0x45, 0x46, 0x47, 0x48, 0x49, 0x4a, 0x53, 0x54, 0x55, 0x56, 0x57,
            0x58, 0x59, 0x5a, 0x63, 0x64, 0x65, 0x66, 0x67, 0x68, 0x69, 0x6a, 0x73, 0x74, 0x75,
            0x76, 0x77, 0x78, 0x79, 0x7a, 0x83, 0x84, 0x85, 0x86, 0x87, 0x88, 0x89, 0x8a, 0x92,
            0x93, 0x94, 0x95, 0x96, 0x97, 0x98, 0x99, 0x9a, 0xa2, 0xa3, 0xa4, 0xa5, 0xa6, 0xa7,
            0xa8, 0xa9, 0xaa, 0xb2, 0xb3, 0xb4, 0xb5, 0xb6, 0xb7, 0xb8, 0xb9, 0xba, 0xc2, 0xc3,
            0xc4, 0xc5, 0xc6, 0xc7, 0xc8, 0xc9, 0xca, 0xd2, 0xd3, 0xd4, 0xd5, 0xd6, 0xd7, 0xd8,
            0xd9, 0xda, 0xe1, 0xe2, 0xe3, 0xe4, 0xe5, 0xe6, 0xe7, 0xe8, 0xe9, 0xea, 0xf1, 0xf2,
            0xf3, 0xf4, 0xf5, 0xf6, 0xf7, 0xf8, 0xf9, 0xfa,
        ],
        codes: zero_codes(162),
        set: false,
    };
    let mut chac = HuffmanTable {
        offsets: vec![0u8, 0, 2, 3, 5, 9, 13, 16, 20, 27, 32, 36, 40, 40, 41, 43, 162],
        symbols: vec![
            0x00u8, 0x01, 0x02, 0x03, 0x11, 0x04, 0x05, 0x21, 0x31, 0x06, 0x12, 0x41, 0x51, 0x07,
            0x61, 0x71, 0x13, 0x22, 0x32, 0x81, 0x08, 0x14, 0x42, 0x91, 0xa1, 0xb1, 0xc1, 0x09,
            0x23, 0x33, 0x52, 0xf0, 0x15, 0x62, 0x72, 0xd1, 0x0a, 0x16, 0x24, 0x34, 0xe1, 0x25,
            0xf1, 0x17, 0x18, 0x19, 0x1a, 0x26, 0x27, 0x28, 0x29, 0x2a, 0x35, 0x36, 0x37, 0x38,
            0x39, 0x3a, 0x43, 0x44, 0x45, 0x46, 0x47, 0x48, 0x49, 0x4a, 0x53, 0x54, 0x55, 0x56,
            0x57, 0x58, 0x59, 0x5a, 0x63, 0x64, 0x65, 0x66, 0x67, 0x68, 0x69, 0x6a, 0x73, 0x74,
            0x75, 0x76, 0x77, 0x78, 0x79, 0x7a, 0x82, 0x83, 0x84, 0x85, 0x86, 0x87, 0x88, 0x89,
            0x8a, 0x92, 0x93, 0x94, 0x95, 0x96, 0x97, 0x98, 0x99, 0x9a, 0xa2, 0xa3, 0xa4, 0xa5,
            0xa6, 0xa7, 0xa8, 0xa9, 0xaa, 0xb2, 0xb3, 0xb4, 0xb5, 0xb6, 0xb7, 0xb8, 0xb9, 0xba,
            0xc2, 0xc3, 0xc4, 0xc5, 0xc6, 0xc7, 0xc8, 0xc9, 0xca, 0xd2, 0xd3, 0xd4, 0xd5, 0xd6,
            0xd7, 0xd8, 0xd9, 0xda, 0xe2, 0xe3, 0xe4, 0xe5, 0xe6, 0xe7, 0xe8, 0xe9, 0xea, 0xf2,
            0xf3, 0xf4, 0xf5, 0xf6, 0xf7, 0xf8, 0xf9, 0xfa,
        ],
        codes: zero_codes(162),
        set: false,
    };
    proof {
        assert(ydc.offsets@ =~= spec_y_dc_offsets());
        assert(ydc.symbols@ =~= spec_dc_symbols());
        assert(chdc.offsets@ =~= spec_ch_dc_offsets());
        assert(chdc.symbols@ =~= spec_dc_symbols());
        assert(yac.offsets@ =~= spec_y_ac_offsets());
        assert(yac.symbols@ =~= spec_y_ac_symbols());
        assert(chac.offsets@ =~= spec_ch_ac_offsets());
        assert(chac.symbols@ =~= spec_ch_ac_symbols());
        assert(spec_offsets_sorted_from(spec_y_dc_offsets(), 0)) by {
            reveal_with_fuel(spec_offsets_sorted_from, 18);
        }
        assert(spec_offsets_sorted_from(spec_ch_dc_offsets(), 0)) by {
            reveal_with_fuel(spec_offsets_sorted_from, 18);
        }
        assert(spec_offsets_sorted_from(spec_y_ac_offsets(), 0)) by {
            reveal_with_fuel(spec_offsets_sorted_from, 18);
        }
        assert(spec_offsets_sorted_from(spec_ch_ac_offsets(), 0)) by {
            reveal_with_fuel(spec_offsets_sorted_from, 18);
        }
    }
    ydc.generate_codes();
    chdc.generate_codes();
    yac.generate_codes();
    chac.generate_codes();
    HuffmanTableSet { ydc, chdc, yac, chac }
}

/// The total of the per-length code counts over the classes below `i`.
pub open spec fn spec_length_count_sum(offsets: Seq<u8>, i: int) -> int
    decreases i,
{
    if i <= 0 {
        0
    } else {
        spec_length_count_sum(offsets, i - 1) + offsets[i] - offsets[i - 1]
    }
}

/// The count total telescopes to the final offset.
pub proof fn lemma_length_count_sum(offsets: Seq<u8>, i: int)
    requires
        offsets.len() == 17,
        0 <= i <= 16,
    ensures
        spec_length_count_sum(offsets, i) == offsets[i] - offsets[0],
    decreases i,
{
    if i > 0 {
        lemma_length_count_sum(offsets, i - 1);
    }
}

/// The base code of a class is nonnegative and below two to the class
/// index, scaled by the codes seen so far.
pub proof fn lemma_class_base_bound(offsets: Seq<u8>, i: int)
    requires
        offsets.len() == 17,
        spec_offsets_sorted_from(offsets, 0),
        0 <= i <= 16,
    ensures
        0 <= spec_class_base(offsets, i),
        spec_class_base(offsets, i) <= vstd::arithmetic::power2::pow2(i as nat) * offsets[i],
    decreases i,
{
    vstd::arithmetic::power2::lemma2_to64();
    if i == 0 {
    } else {
        lemma_class_base_bound(offsets, i - 1);
        lemma_sorted_pair(offsets, 0, i - 1);
        let p = vstd::arithmetic::power2::pow2((i - 1) as nat) as int;
        assert(vstd::arithmetic::power2::pow2(i as nat) == 2 * p) by {
            vstd::arithmetic::power2::lemma_pow2_unfold(i as nat);
        }
        assert(2 * (p * offsets[i - 1] + (offsets[i] - offsets[i - 1])) <= (2 * p) * offsets[i])
            by (nonlinear_arith)
            requires
                p >= 1 && 0 <= offsets[i - 1] <= offsets[i],
        ;
    }
}

/// Canonical code construction: the table holds one code per counted
/// symbol; within one length class the codes are consecutive integers; and
/// across a class boundary the first code of the longer class is twice the
/// successor of the last code of the shorter one.
pub proof fn lemma_canonical_code_construction(offsets: Seq<u8>, n: int)
    requires
        offsets.len() == 17,
        offsets[0] == 0,
        spec_offsets_sorted_from(offsets, 0),
        n == offsets[16],
    ensures
        spec_canonical_codes(offsets, n).len() == spec_length_count_sum(offsets, 16),
        forall|i: int, j: int|
            #![trigger offsets[i], spec_canonical_codes(offsets, n)[j]]
            0 <= i < 16 && offsets[i] <= j && j + 1 < offsets[i + 1] ==> spec_canonical_codes(
                offsets,
                n,
            )[j + 1] == spec_canonical_codes(offsets, n)[j] + 1,
        forall|i: int|
            0 <= i < 15 && offsets[i] < offsets[i + 1] && offsets[i + 1] < offsets[i + 2]
                ==> #[trigger] spec_canonical_codes(offsets, n)[offsets[i + 1] as int] == 2 * (
            spec_canonical_codes(offsets, n)[offsets[i + 1] - 1] + 1),
{
    let codes = spec_canonical_codes(offsets, n);
    lemma_length_count_sum(offsets, 16);
    vstd::arithmetic::power2::lemma2_to64();
    assert forall|i: int, j: int|
        #![trigger offsets[i], spec_canonical_codes(offsets, n)[j]]
        0 <= i < 16 && offsets[i] <= j && j + 1 < offsets[i + 1] implies codes[j + 1]
        == codes[j] + 1 by {
        lemma_sorted_le(offsets, i + 1, 16);
        lemma_class_of_range(offsets, i, j);
        lemma_class_of_range(offsets, i, j + 1);
        lemma_class_base_bound(offsets, i);
        assert(vstd::arithmetic::power2::pow2(i as nat) * offsets[i] <= 0x10000 * 255)
            by (nonlinear_arith)
            requires
                0 <= vstd::arithmetic::power2::pow2(i as nat) <= 0x10000 && 0 <= offsets[i] <= 255,
        ;
    }
    assert forall|i: int|
        0 <= i < 15 && offsets[i] < offsets[i + 1] && offsets[i + 1] < offsets[i + 2]
        implies #[trigger] codes[offsets[i + 1] as int] == 2 * (codes[offsets[i + 1] - 1] + 1) by {
        lemma_sorted_le(offsets, i + 2, 16);
        lemma_class_of_range(offsets, i + 1, offsets[i + 1] as int);
        lemma_class_of_range(offsets, i, offsets[i + 1] - 1);
        lemma_class_base_bound(offsets, i);
        lemma_class_base_bound(offsets, i + 1);
        assert(vstd::arithmetic::power2::pow2(i as nat) * offsets[i] <= 0x10000 * 255)
            by (nonlinear_arith)
            requires
                0 <= vstd::arithmetic::power2::pow2(i as nat) <= 0x10000 && 0 <= offsets[i] <= 255,
        ;
        assert(vstd::arithmetic::power2::pow2((i + 1) as nat) * offsets[i + 1] <= 0x20000 * 255)
            by (nonlinear_arith)
            requires
                0 <= vstd::arithmetic::power2::pow2((i + 1) as nat) <= 0x20000 && 0 <= offsets[i
                    + 1] <= 255,
        ;
    }
}

} // verus!
