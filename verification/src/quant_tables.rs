//! The default quantization tables (JPEG Annex K), in natural order.

use vstd::prelude::*;

verus! {

/// The default luminance quantization table.
pub open spec fn spec_y_quant_table() -> Seq<u8> {
    seq![
        16u8, 11, 10, 16, 24, 40, 51, 61, 12, 12, 14, 19, 26, 58, 60, 55, 14, 13, 16, 24, 40, 57,
        69, 56, 14, 17, 22, 29, 51, 87, 80, 62, 18, 22, 37, 56, 68, 109, 103, 77, 24, 35, 55, 64,
        81, 104, 113, 92, 49, 64, 78, 87, 103, 121, 120, 101, 72, 92, 95, 98, 112, 100, 103, 99,
    ]
}

/// The default chrominance quantization table.
pub open spec fn spec_ch_quant_table() -> Seq<u8> {
    seq![
        17u8, 18, 24, 47, 99, 99, 99, 99, 18, 21, 26, 66, 99, 99, 99, 99, 24, 26, 56, 99, 99, 99,
        99, 99, 47, 66, 99, 99, 99, 99, 99, 99, 99, 99, 99, 99, 99, 99, 99, 99, 99, 99, 99, 99,
        99, 99, 99, 99, 99, 99, 99, 99, 99, 99, 99, 99, 99, 99, 99, 99, 99, 99, 99, 99,
    ]
}

/// Every entry of a usable quantization table is a positive divisor.
pub open spec fn spec_quant_table_wf(t: Seq<u8>) -> bool {
    t.len() == 64 && forall|k: int| 0 <= k < 64 ==> #[trigger] t[k] >= 1
}

/// The default luminance quantization table, in natural order.
pub fn default_y_quantization_table() -> (r: [u8; 64])
    ensures
        r@ == spec_y_quant_table(),
        spec_quant_table_wf(r@),
{
    let t: [u8; 64] = [
        16, 11, 10, 16, 24, 40, 51, 61, 12, 12, 14, 19, 26, 58, 60, 55, 14, 13, 16, 24, 40, 57,
        69, 56, 14, 17, 22, 29, 51, 87, 80, 62, 18, 22, 37, 56, 68, 109, 103, 77, 24, 35, 55, 64,
        81, 104, 113, 92, 49, 64, 78, 87, 103, 121, 120, 101, 72, 92, 95, 98, 112, 100, 103, 99,
    ];
    proof {
        assert(t@ =~= spec_y_quant_table());
        assert(forall|k: int| 0 <= k < 64 ==> #[trigger] t@[k] >= 1);
    }
    t
}

/// The default chrominance quantization table, in natural order.
pub fn default_ch_quantization_table() -> (r: [u8; 64])
    ensures
        r@ == spec_ch_quant_table(),
        spec_quant_table_wf(r@),
{
    let t: [u8; 64] = [
        17, 18, 24, 47, 99, 99, 99, 99, 18, 21, 26, 66, 99, 99, 99, 99, 24, 26, 56, 99, 99, 99,
        99, 99, 47, 66, 99, 99, 99, 99, 99, 99, 99, 99, 99, 99, 99, 99, 99, 99, 99, 99, 99, 99,
        99, 99, 99, 99, 99, 99, 99, 99, 99, 99, 99, 99, 99, 99, 99, 99, 99, 99, 99, 99,
    ];
    proof {
        assert(t@ =~= spec_ch_quant_table());
        assert(forall|k: int| 0 <= k < 64 ==> #[trigger] t@[k] >= 1);
    }
    t
}

} // verus!
