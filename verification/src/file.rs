//! The JFIF container serializer: SOI, APP0, two DQT segments, SOF0, four
//! DHT segments, SOS, the byte-stuffed entropy-coded data, and EOI, as one
//! byte vector. All multi-byte fields are big-endian; each length field
//! counts itself but not its marker.

use vstd::prelude::*;
use byteorder::ByteOrder;
use crate::bitvec::{spec_byte_at, spec_div_ceil_bits};
use crate::huffman_tables::{
    initialize_huffman_tables, spec_ch_ac_table, spec_ch_dc_table, spec_huffman_wf,
    spec_y_ac_table, spec_y_dc_table, spec_zig_zag_map, zig_zag_map, HuffmanTable, SpecHuffman,
};
use crate::jpeg_image::{spec_hf, spec_vf, JpegImage};
use crate::quant_tables::{
    default_ch_quantization_table, default_y_quantization_table, spec_ch_quant_table,
    spec_y_quant_table,
};

verus! {

/// Relies on byteorder's `BigEndian::write_u16`: the two big-endian bytes
/// of a 16-bit value.
#[verifier::external_body]
fn be_u16_bytes(n: u16) -> (r: [u8; 2])
    ensures
        r@.len() == 2,
        r@[0] == n as int / 256,
        r@[1] == n as int % 256,
{
    let mut buf = [0u8; 2];
    byteorder::BigEndian::write_u16(&mut buf, n);
    buf
}

/// Append a 16-bit value, most significant byte first.
fn push_u16_be(out: &mut Vec<u8>, n: u16)
    ensures
        final(out)@ == old(out)@ + seq![(n as int / 256) as u8, (n as int % 256) as u8],
{
    let b = be_u16_bytes(n);
    out.push(b[0]);
    out.push(b[1]);
    proof {
        vstd::arithmetic::div_mod::lemma_mod_bound(n as int, 256);
        vstd::arithmetic::div_mod::lemma_div_is_ordered(n as int, 65535, 256);
        vstd::arithmetic::div_mod::lemma_div_pos_is_pos(n as int, 256);
        assert(final(out)@ =~= old(out)@ + seq![
            (n as int / 256) as u8,
            (n as int % 256) as u8,
        ]);
    }
}

/// The start-of-image marker.
pub open spec fn spec_soi_segment() -> Seq<u8> {
    seq![0xffu8, 0xd8u8]
}

/// The JFIF APP0 segment: identifier, version 1.1, dot-per-inch units,
/// 72x72 density, no thumbnail.
pub open spec fn spec_app0_segment() -> Seq<u8> {
    seq![
        0xffu8, 0xe0u8, 0u8, 16u8, 0x4au8, 0x46u8, 0x49u8, 0x46u8, 0u8, 1u8, 1u8, 1u8, 0u8, 72u8,
        0u8, 72u8, 0u8, 0u8,
    ]
}

/// A DQT segment: the 64 table bytes reordered by the zig-zag scan, under
/// the given destination identifier.
pub open spec fn spec_dqt_segment(destination: u8, table: Seq<u8>) -> Seq<u8> {
    seq![0xffu8, 0xdbu8, 0u8, 67u8, destination] + Seq::new(
        64,
        |i: int| table[spec_zig_zag_map()[i] as int],
    )
}

/// The SOF0 segment: 8-bit precision, the logical dimensions, and the
/// three components with their sampling factors and table assignments.
pub open spec fn spec_sof_segment(img: JpegImage) -> Seq<u8> {
    let hf = spec_hf(img.chrominance_downsampling_ratio);
    let vf = spec_vf(img.chrominance_downsampling_ratio);
    seq![0xffu8, 0xc0u8, 0u8, 17u8, 8u8]
        + seq![
        (img.height as int / 256) as u8,
        (img.height as int % 256) as u8,
        (img.width as int / 256) as u8,
        (img.width as int % 256) as u8,
    ] + seq![3u8, 1u8, (hf * 16 + vf) as u8, 0u8, 2u8, 0x11u8, 1u8, 3u8, 0x11u8, 1u8]
}

/// A DHT segment: the class and identifier byte, the sixteen length
/// counts, then the symbols in canonical order.
pub open spec fn spec_dht_segment(class_id: u8, t: SpecHuffman) -> Seq<u8> {
    seq![0xffu8, 0xc4u8, ((19 + t.offsets[16]) as int / 256) as u8, ((19 + t.offsets[16]) as int
        % 256) as u8, class_id] + Seq::new(16, |i: int| (t.offsets[i + 1] - t.offsets[i]) as u8)
        + t.symbols
}

/// The SOS segment: three components with their entropy table selections,
/// and the baseline spectral parameters.
pub open spec fn spec_sos_segment() -> Seq<u8> {
    seq![
        0xffu8, 0xdau8, 0u8, 12u8, 3u8, 1u8, 0u8, 2u8, 0x11u8, 3u8, 0x11u8, 0u8, 63u8, 0u8,
    ]
}

/// The packed bytes of the entropy bit stream.
pub open spec fn spec_packed_bytes(bits: Seq<bool>) -> Seq<u8> {
    Seq::new(spec_div_ceil_bits(bits.len() as int) as nat, |k: int| spec_byte_at(bits, k) as u8)
}

/// Byte stuffing: every 0xFF byte is followed by an inserted 0x00.
pub open spec fn spec_stuff(s: Seq<u8>) -> Seq<u8>
    decreases s.len(),
{
    if s.len() == 0 {
        Seq::empty()
    } else if s[0] == 0xff {
        seq![0xffu8, 0u8] + spec_stuff(s.drop_first())
    } else {
        seq![s[0]] + spec_stuff(s.drop_first())
    }
}

/// In a stuffed sequence, every 0xFF byte is immediately followed by a
/// 0x00 byte inside the sequence: a raw `FF xx` with `xx != 00` never
/// appears, and no 0xFF is last.
pub proof fn lemma_stuffing(s: Seq<u8>)
    ensures
        forall|i: int|
            0 <= i < spec_stuff(s).len() && #[trigger] spec_stuff(s)[i] == 0xff ==> i + 1
                < spec_stuff(s).len() && spec_stuff(s)[i + 1] == 0,
    decreases s.len(),
{
    if s.len() == 0 {
    } else {
        lemma_stuffing(s.drop_first());
        let rest = spec_stuff(s.drop_first());
        let head: Seq<u8> = if s[0] == 0xff {
            seq![0xffu8, 0u8]
        } else {
            seq![s[0]]
        };
        assert(spec_stuff(s) == head + rest);
        assert forall|i: int|
            0 <= i < spec_stuff(s).len() && #[trigger] spec_stuff(s)[i] == 0xff implies i + 1
            < spec_stuff(s).len() && spec_stuff(s)[i + 1] == 0 by {
            if i >= head.len() {
                assert(spec_stuff(s)[i] == rest[i - head.len()]);
                assert(rest[i - head.len() + 1] == 0);
            }
        }
    }
}

/// The whole JFIF byte stream of an encoded image.
pub open spec fn spec_jpeg_header(img: JpegImage) -> Seq<u8> {
    spec_soi_segment() + spec_app0_segment() + spec_dqt_segment(0, spec_y_quant_table())
        + spec_dqt_segment(1, spec_ch_quant_table()) + spec_sof_segment(img) + spec_dht_segment(
        0x00,
        spec_y_dc_table(),
    ) + spec_dht_segment(0x01, spec_ch_dc_table()) + spec_dht_segment(0x10, spec_y_ac_table())
        + spec_dht_segment(0x11, spec_ch_ac_table()) + spec_sos_segment()
}

/// The bytes of the generated file: the marker segments, the stuffed
/// entropy data, and the end-of-image marker.
pub open spec fn spec_jpeg_bytes(img: JpegImage) -> Seq<u8> {
    spec_jpeg_header(img) + spec_stuff(spec_packed_bytes(img.entropy_coded_bits@)) + seq![
        0xffu8,
        0xd9u8,
    ]
}

/// The produced stream is a byte-valid baseline frame: it begins with
/// SOI, ends with EOI, the header has its fixed segment layout, and the
/// entropy-coded segment never holds a raw `FF xx` with `xx != 00`.
pub proof fn lemma_jpeg_structure(img: JpegImage)
    ensures
        spec_jpeg_header(img).len() == 623,
        spec_jpeg_bytes(img).len() >= 625,
        spec_jpeg_bytes(img)[0] == 0xff,
        spec_jpeg_bytes(img)[1] == 0xd8,
        spec_jpeg_bytes(img)[spec_jpeg_bytes(img).len() - 2] == 0xff,
        spec_jpeg_bytes(img)[spec_jpeg_bytes(img).len() - 1] == 0xd9,
        spec_jpeg_bytes(img).subrange(623, spec_jpeg_bytes(img).len() - 2) == spec_stuff(
            spec_packed_bytes(img.entropy_coded_bits@),
        ),
        forall|i: int|
            623 <= i < spec_jpeg_bytes(img).len() - 2 && #[trigger] spec_jpeg_bytes(img)[i]
                == 0xff ==> spec_jpeg_bytes(img)[i + 1] == 0,
{
    let header = spec_jpeg_header(img);
    let stuffed = spec_stuff(spec_packed_bytes(img.entropy_coded_bits@));
    let bytes = spec_jpeg_bytes(img);
    assert(spec_y_dc_table().symbols.len() == 12);
    assert(spec_ch_dc_table().symbols.len() == 12);
    assert(spec_y_ac_table().symbols.len() == 162);
    assert(spec_ch_ac_table().symbols.len() == 162);
    assert(header.len() == 623);
    assert(bytes.len() == 625 + stuffed.len());
    lemma_stuffing(spec_packed_bytes(img.entropy_coded_bits@));
    assert(bytes.subrange(623, bytes.len() - 2) =~= stuffed);
    assert forall|i: int|
        623 <= i < bytes.len() - 2 && #[trigger] bytes[i] == 0xff implies bytes[i + 1] == 0 by {
        assert(bytes[i] == stuffed[i - 623]);
        assert(stuffed[i - 623 + 1] == 0);
    }
}

impl JpegImage {
    /// Serialize the encoded image: the fixed marker segments, the two
    /// quantization tables in zig-zag order, the frame and scan headers for
    /// the configured geometry, the four standard Huffman tables, the
    /// byte-stuffed entropy data, and the end-of-image marker.
    pub fn generate_file(&self) -> (r: Vec<u8>)
        requires
            self.wf_config(),
            self.entropy_coded_bits@.len() <= usize::MAX - 8,
        ensures
            r@ == spec_jpeg_bytes(*self),
    {
        let tables = initialize_huffman_tables();
        let mut out: Vec<u8> = Vec::new();

        // START OF IMAGE
        out.push(0xff);
        out.push(0xd8);
        proof {
            assert(out@ =~= spec_soi_segment());
        }

        // APP0
        write_app0(&mut out);

        // QUANTIZATION TABLES
        let y_quant = default_y_quantization_table();
        let ch_quant = default_ch_quantization_table();
        write_quantization_tables(&mut out, 0, &y_quant);
        write_quantization_tables(&mut out, 1, &ch_quant);

        // START OF FRAME
        self.write_start_of_frame(&mut out);

        // DEFINE HUFFMAN TABLES
        write_huffman_table(&mut out, 0, 0, &tables.ydc);
        write_huffman_table(&mut out, 0, 1, &tables.chdc);
        write_huffman_table(&mut out, 1, 0, &tables.yac);
        write_huffman_table(&mut out, 1, 1, &tables.chac);

        // START OF SCAN
        write_start_of_scan(&mut out);
        proof {
            assert(out@ =~= spec_jpeg_header(*self));
        }

        // IMAGE DATA
        self.write_image_data(&mut out);

        // END OF IMAGE
        out.push(0xff);
        out.push(0xd9);
        proof {
            assert(out@ =~= spec_jpeg_bytes(*self));
        }
        out
    }

    /// Append the SOF0 segment for this image's geometry.
    fn write_start_of_frame(&self, out: &mut Vec<u8>)
        requires
            self.wf_config(),
        ensures
            final(out)@ == old(out)@ + spec_sof_segment(*self),
    {
        out.push(0xff);
        out.push(0xc0);
        push_u16_be(out, 17);
        out.push(8);
        push_u16_be(out, self.height as u16);
        push_u16_be(out, self.width as u16);
        out.push(3);
        let (hf, vf) = Self::get_downsampling_factor(self.chrominance_downsampling_ratio);
        out.push(1);
        out.push((hf as u8) * 16 + (vf as u8));
        out.push(0);
        out.push(2);
        out.push(0x11);
        out.push(1);
        out.push(3);
        out.push(0x11);
        out.push(1);
        proof {
            assert(final(out)@ =~= old(out)@ + spec_sof_segment(*self));
        }
    }

    /// Append the stuffed entropy-coded data.
    fn write_image_data(&self, out: &mut Vec<u8>)
        requires
            self.entropy_coded_bits@.len() <= usize::MAX - 8,
        ensures
            final(out)@ == old(out)@ + spec_stuff(spec_packed_bytes(self.entropy_coded_bits@)),
    {
        let bytes = self.entropy_coded_bits.to_bytes();
        proof {
            assert(bytes@ =~= spec_packed_bytes(self.entropy_coded_bits@));
            assert(bytes@.skip(0) =~= bytes@);
        }
        let mut i: usize = 0;
        while i < bytes.len()
            invariant
                bytes@ == spec_packed_bytes(self.entropy_coded_bits@),
                i <= bytes@.len(),
                out@ + spec_stuff(bytes@.skip(i as int)) == old(out)@ + spec_stuff(bytes@),
            decreases bytes@.len() - i,
        {
            let b = bytes[i];
            out.push(b);
            if b == 0xff {
                out.push(0);
            }
            proof {
                let tail = bytes@.skip(i as int);
                assert(tail.len() > 0 && tail[0] == b);
                assert(tail.drop_first() =~= bytes@.skip(i as int + 1));
                if b == 0xff {
                    assert(spec_stuff(tail) == seq![0xffu8, 0u8] + spec_stuff(
                        bytes@.skip(i as int + 1),
                    ));
                } else {
                    assert(spec_stuff(tail) == seq![b] + spec_stuff(bytes@.skip(i as int + 1)));
                }
                assert(out@ + spec_stuff(bytes@.skip(i as int + 1)) =~= old(out)@ + spec_stuff(
                    bytes@,
                ));
            }
            i = i + 1;
        }
        proof {
            assert(bytes@.skip(bytes@.len() as int) =~= Seq::<u8>::empty());
            assert(final(out)@ =~= old(out)@ + spec_stuff(bytes@));
        }
    }
}

/// Append the APP0 segment.
fn write_app0(out: &mut Vec<u8>)
    ensures
        final(out)@ == old(out)@ + spec_app0_segment(),
{
    out.push(0xff);
    out.push(0xe0);
    push_u16_be(out, 16);
    out.push(0x4a);
    out.push(0x46);
    out.push(0x49);
    out.push(0x46);
    out.push(0);
    out.push(1);
    out.push(1);
    out.push(1);
    push_u16_be(out, 72);
    push_u16_be(out, 72);
    out.push(0);
    out.push(0);
    proof {
        assert(final(out)@ =~= old(out)@ + spec_app0_segment());
    }
}

/// Append one DQT segment, its 64 bytes reordered by the zig-zag scan.
fn write_quantization_tables(out: &mut Vec<u8>, destination: u8, table: &[u8; 64])
    ensures
        final(out)@ == old(out)@ + spec_dqt_segment(destination, table@),
{
    out.push(0xff);
    out.push(0xdb);
    push_u16_be(out, 67);
    out.push(destination);
    let zz = zig_zag_map();
    let ghost mid = out@;
    let mut i: usize = 0;
    while i < 64
        invariant
            zz@ == spec_zig_zag_map(),
            i <= 64,
            out@ == mid + Seq::new(i as nat, |k: int| table@[spec_zig_zag_map()[k] as int]),
        decreases 64 - i,
    {
        out.push(table[zz[i]]);
        proof {
            assert(out@ =~= mid + Seq::new(
                (i + 1) as nat,
                |k: int| table@[spec_zig_zag_map()[k] as int],
            ));
        }
        i = i + 1;
    }
    proof {
        assert(Seq::new(64, |k: int| table@[spec_zig_zag_map()[k] as int]) =~= Seq::new(
            64,
            |k: int| table@[spec_zig_zag_map()[k] as int],
        ));
        assert(final(out)@ =~= old(out)@ + spec_dqt_segment(destination, table@));
    }
}

/// Append one DHT segment: the class and identifier, the sixteen length
/// counts derived from the offsets, then the symbols.
fn write_huffman_table(out: &mut Vec<u8>, coeff_type: u8, table_id: u8, table: &HuffmanTable)
    requires
        coeff_type <= 1,
        table_id <= 1,
        spec_huffman_wf(table@),
    ensures
        final(out)@ == old(out)@ + spec_dht_segment((coeff_type * 16 + table_id) as u8, table@),
{
    out.push(0xff);
    out.push(0xc4);
    let ns = table.offsets[16];
    push_u16_be(out, 19 + (ns as u16));
    out.push(coeff_type * 16 + table_id);
    let ghost mid = out@;
    let mut i: usize = 0;
    while i < 16
        invariant
            spec_huffman_wf(table@),
            i <= 16,
            out@ == mid + Seq::new(
                i as nat,
                |k: int| (table@.offsets[k + 1] - table@.offsets[k]) as u8,
            ),
        decreases 16 - i,
    {
        proof {
            crate::huffman_tables::lemma_sorted_pair(table@.offsets, 0, i as int);
        }
        out.push(table.offsets[i + 1] - table.offsets[i]);
        proof {
            assert(out@ =~= mid + Seq::new(
                (i + 1) as nat,
                |k: int| (table@.offsets[k + 1] - table@.offsets[k]) as u8,
            ));
        }
        i = i + 1;
    }
    let ghost mid2 = out@;
    let mut j: usize = 0;
    while j < table.symbols.len()
        invariant
            spec_huffman_wf(table@),
            j <= table@.symbols.len(),
            out@ == mid2 + table@.symbols.subrange(0, j as int),
        decreases table@.symbols.len() - j,
    {
        out.push(table.symbols[j]);
        proof {
            assert(out@ =~= mid2 + table@.symbols.subrange(0, j as int + 1));
        }
        j = j + 1;
    }
    proof {
        assert(table@.symbols.subrange(0, table@.symbols.len() as int) =~= table@.symbols);
        assert(final(out)@ =~= old(out)@ + spec_dht_segment(
            (coeff_type * 16 + table_id) as u8,
            table@,
        ));
    }
}

/// Append the SOS segment.
fn write_start_of_scan(out: &mut Vec<u8>)
    ensures
        final(out)@ == old(out)@ + spec_sos_segment(),
{
    out.push(0xff);
    out.push(0xda);
    push_u16_be(out, 12);
    out.push(3);
    out.push(1);
    out.push(0);
    out.push(2);
    out.push(0x11);
    out.push(3);
    out.push(0x11);
    out.push(0);
    out.push(63);
    out.push(0);
    proof {
        assert(final(out)@ =~= old(out)@ + spec_sos_segment());
    }
}

} // verus!
