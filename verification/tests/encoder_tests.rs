use jpeg_encoder::bitvec::{write_bits, BitVec};
use jpeg_encoder::bmp_image::BmpImage;
use jpeg_encoder::colorspace::{rgb_to_ycbcr, ycbcr_to_rgb};
use jpeg_encoder::dct_quant::DctAlgorithm;
use jpeg_encoder::entropy_coding::{huffman_encode, runlength_encode, RunLength};
use jpeg_encoder::huffman_tables::{initialize_huffman_tables, HuffmanTable, HuffmanTableType};
use jpeg_encoder::jpeg_image::JpegImage;
use jpeg_encoder::pixel_matrix::PixelMatrix;
use jpeg_encoder::sampling::downsample_plane;
use jpeg_encoder::JpegError;

/// Build the bytes of a 24-bit uncompressed BMP filled with one color.
fn solid_bmp(width: i32, height: i32, rgb: (u8, u8, u8)) -> Vec<u8> {
    let mut data = vec![0u8; 26];
    let offset: u32 = 26;
    data[10..14].copy_from_slice(&offset.to_le_bytes());
    data[18..22].copy_from_slice(&width.to_le_bytes());
    data[22..26].copy_from_slice(&height.to_le_bytes());
    let stride = ((3 * width as usize) + 3) / 4 * 4;
    for _row in 0..height as usize {
        let mut line = vec![0u8; stride];
        for col in 0..width as usize {
            line[3 * col] = rgb.2;
            line[3 * col + 1] = rgb.1;
            line[3 * col + 2] = rgb.0;
        }
        data.extend_from_slice(&line);
    }
    data
}

/// Run the whole pipeline on a solid-color image.
fn encode_solid(
    width: i32,
    height: i32,
    ratio: (u8, u8, u8),
    algorithm: DctAlgorithm,
    rgb: (u8, u8, u8),
) -> Vec<u8> {
    let data = solid_bmp(width, height, rgb);
    let mut bmp = BmpImage::new(&data).unwrap();
    bmp.load_pixels(&data);
    let mut image = JpegImage::from_bmp(&bmp, String::from("out.jpeg"), ratio, algorithm);
    image.chrominance_downsampling();
    image.dct_and_quantization();
    image.generate_entropy_encoded_data().unwrap();
    image.generate_file()
}

fn assert_frame_structure(bytes: &[u8]) {
    assert!(bytes.len() >= 625);
    assert_eq!(&bytes[0..2], &[0xff, 0xd8]);
    assert_eq!(&bytes[bytes.len() - 2..], &[0xff, 0xd9]);
    // APP0 length right after its marker
    assert_eq!(&bytes[2..6], &[0xff, 0xe0, 0, 16]);
    // every 0xFF in the entropy segment is stuffed
    for i in 623..bytes.len() - 2 {
        if bytes[i] == 0xff {
            assert_eq!(bytes[i + 1], 0x00, "unstuffed 0xFF at {}", i);
        }
    }
}

#[test]
fn uniform_gray_one_mcu_encodes() {
    let bytes = encode_solid(16, 16, (4, 2, 0), DctAlgorithm::BinDct, (128, 128, 128));
    assert_frame_structure(&bytes);
    // SOF0 carries the logical dimensions and 4:2:0 luminance sampling
    assert_eq!(&bytes[158..163], &[0xff, 0xc0, 0, 17, 8]);
    assert_eq!(&bytes[163..167], &[0, 16, 0, 16]);
    assert_eq!(bytes[169], 0x22);
}

#[test]
fn smallest_image_with_real_dct() {
    let bytes = encode_solid(2, 2, (4, 4, 4), DctAlgorithm::RealDct, (10, 200, 60));
    assert_frame_structure(&bytes);
    assert_eq!(&bytes[163..167], &[0, 2, 0, 2]);
    assert_eq!(bytes[169], 0x11);
}

#[test]
fn bmp_round_trip_dimensions() {
    let bytes = encode_solid(13, 7, (4, 2, 0), DctAlgorithm::BinDct, (90, 40, 200));
    assert_frame_structure(&bytes);
    // SOF0 carries height = 7, width = 13
    assert_eq!(&bytes[163..167], &[0, 7, 0, 13]);
    assert_eq!(bytes[169], 0x22);
}

#[test]
fn byte_stuffing_in_entropy_segment() {
    let mut image = JpegImage::new(
        String::from("out.jpeg"),
        8,
        8,
        (4, 4, 4),
        DctAlgorithm::BinDct,
    );
    write_bits(&mut image.entropy_coded_bits, 0xff, 8);
    let bytes = image.generate_file();
    assert_eq!(bytes[623], 0xff);
    assert_eq!(bytes[624], 0x00);
    assert_eq!(&bytes[bytes.len() - 2..], &[0xff, 0xd9]);
}

#[test]
fn all_zero_block_run_length() {
    let coeffs: Vec<i16> = vec![0; 64];
    let mut prev: i16 = 0;
    let mut tokens: Vec<RunLength> = Vec::new();
    runlength_encode(&mut prev, &coeffs, &mut tokens).unwrap();
    assert_eq!(tokens.len(), 2);
    assert_eq!((tokens[0].symbol, tokens[0].amplitude), (0x00, 0));
    assert_eq!((tokens[1].symbol, tokens[1].amplitude), (0x00, 0));

    // Huffman-encoded length: DC size-0 code (2 bits) plus EOB (4 bits)
    let tables = initialize_huffman_tables();
    let mut bits = BitVec::new();
    huffman_encode(&tokens, &mut bits, &tables.ydc, &tables.yac).unwrap();
    assert_eq!(bits.size(), 2 + 4);
}

#[test]
fn trailing_zero_run_collapses_to_one_eob() {
    // one nonzero AC early in the zig-zag scan, then zeros
    let mut coeffs: Vec<i16> = vec![0; 64];
    coeffs[0] = 3;
    coeffs[1] = -2; // zig-zag position 1
    let mut prev: i16 = 0;
    let mut tokens: Vec<RunLength> = Vec::new();
    runlength_encode(&mut prev, &coeffs, &mut tokens).unwrap();
    let eobs = tokens
        .iter()
        .skip(1)
        .filter(|t| t.symbol == 0x00 && t.amplitude == 0)
        .count();
    assert_eq!(eobs, 1);
    assert_eq!(tokens.last().unwrap().symbol, 0x00);

    // a block whose last zig-zag coefficient is nonzero has no EOB
    let mut coeffs2: Vec<i16> = vec![1; 64];
    coeffs2[63] = 5;
    let mut prev2: i16 = 0;
    let mut tokens2: Vec<RunLength> = Vec::new();
    runlength_encode(&mut prev2, &coeffs2, &mut tokens2).unwrap();
    assert!(tokens2.iter().skip(1).all(|t| t.symbol != 0x00));
}

#[test]
fn dc_overflow_is_fatal() {
    let mut coeffs: Vec<i16> = vec![0; 64];
    coeffs[0] = 16000; // needs more than 11 bits
    let mut prev: i16 = 0;
    let mut tokens: Vec<RunLength> = Vec::new();
    let r = runlength_encode(&mut prev, &coeffs, &mut tokens);
    assert_eq!(r, Err(JpegError::CoefficientOverflow));
}

#[test]
fn missing_symbol_is_fatal() {
    let empty = HuffmanTable {
        offsets: vec![0; 17],
        symbols: vec![],
        codes: vec![],
        set: true,
    };
    let tokens = vec![RunLength { symbol: 0x05, amplitude: 1 }];
    let mut bits = BitVec::new();
    let r = huffman_encode(&tokens, &mut bits, &empty, &empty);
    assert_eq!(r, Err(JpegError::MissingHuffmanCode));
}

#[test]
fn canonical_codes_of_standard_tables() {
    let tables = initialize_huffman_tables();
    // luminance DC: 12 codes; within a length class consecutive codes,
    // across classes the first longer code is twice the successor
    assert_eq!(tables.ydc.get_code(0x00), Some((0b00, 2)));
    assert_eq!(tables.ydc.get_code(0x01), Some((0b010, 3)));
    assert_eq!(tables.ydc.get_code(0x02), Some((0b011, 3)));
    assert_eq!(tables.ydc.get_code(0x05), Some((0b110, 3)));
    assert_eq!(tables.ydc.get_code(0x06), Some((0b1110, 4)));
    assert_eq!(tables.ydc.get_code(0x0b), Some((0b111111110, 9)));
    // luminance AC: EOB is the fourth symbol, a 4-bit code
    assert_eq!(tables.yac.get_code(0x00), Some((0b1010, 4)));
    assert_eq!(tables.yac.get_code(0x01), Some((0b00, 2)));
    // ZRL
    assert_eq!(tables.yac.get_code(0xf0), Some((0b11111111001, 11)));
    // a symbol that is not in a DC table
    assert_eq!(tables.ydc.get_code(0x0c), None);
}

#[test]
fn amplitude_bits_follow_the_code() {
    // token (run 0, size 3), amplitude 5: luminance DC code 100 then 101
    let tables = initialize_huffman_tables();
    let tokens = vec![RunLength { symbol: 0x03, amplitude: 5 }];
    let mut bits = BitVec::new();
    huffman_encode(&tokens, &mut bits, &tables.ydc, &tables.yac).unwrap();
    assert_eq!(bits.size(), 3 + 3);
    // the trailing partial byte pads with one bits
    assert_eq!(bits.to_bytes(), vec![0b100_101_11]);
}

#[test]
fn bit_buffer_packs_msb_first() {
    let mut bits = BitVec::new();
    bits.writeBit(0x80);
    bits.writeBit(0x00);
    write_bits(&mut bits, 0b101, 3);
    assert_eq!(bits.size(), 5);
    // one-bit padding fills the rest of the byte
    assert_eq!(bits.to_bytes(), vec![0b10101_111]);

    let mut top = BitVec::new();
    top.writeBits(0b1000_0000, 2);
    assert_eq!(top.size(), 2);
    assert_eq!(top.to_bytes(), vec![0b1011_1111]);
}

#[test]
fn downsampling_ratio_444_is_identity() {
    let data = solid_bmp(8, 8, (30, 60, 90));
    let mut bmp = BmpImage::new(&data).unwrap();
    bmp.load_pixels(&data);
    let mut image = JpegImage::from_bmp(
        &bmp,
        String::from("out.jpeg"),
        (4, 4, 4),
        DctAlgorithm::BinDct,
    );
    let cb_before = image.cb_channel.pixels.clone();
    let cr_before = image.cr_channel.pixels.clone();
    image.chrominance_downsampling();
    assert_eq!(image.cb_channel.pixels, cb_before);
    assert_eq!(image.cr_channel.pixels, cr_before);
}

#[test]
fn downsampling_halves_chroma_dimensions() {
    let data = solid_bmp(16, 16, (10, 20, 30));
    let mut bmp = BmpImage::new(&data).unwrap();
    bmp.load_pixels(&data);
    let mut image = JpegImage::from_bmp(
        &bmp,
        String::from("out.jpeg"),
        (4, 2, 0),
        DctAlgorithm::BinDct,
    );
    image.chrominance_downsampling();
    assert_eq!(image.cb_channel.width, 8);
    assert_eq!(image.cb_channel.height, 8);
    assert_eq!(image.cr_channel.width, 8);
    assert_eq!(image.cr_channel.height, 8);
    // a solid plane averages to itself
    let expected_cb = image.cb_channel.pixels[0];
    assert!(image.cb_channel.pixels.iter().all(|v| *v == expected_cb));
}

#[test]
fn downsampled_dimensions_round_up_to_blocks() {
    assert_eq!(JpegImage::get_downsampled_dimensions(13, 7, 2, 2), (8, 8));
    assert_eq!(JpegImage::get_downsampled_dimensions(16, 16, 2, 2), (8, 8));
    assert_eq!(JpegImage::get_downsampled_dimensions(16, 16, 1, 1), (16, 16));
    assert_eq!(JpegImage::get_downsampled_dimensions(17, 16, 2, 2), (16, 8));
}

#[test]
fn color_round_trip_stays_close() {
    for &pixel in &[
        (128u8, 128u8, 128u8),
        (255, 0, 0),
        (0, 255, 0),
        (0, 0, 255),
        (255, 255, 255),
        (0, 0, 0),
        (12, 200, 99),
    ] {
        let ycbcr = rgb_to_ycbcr(pixel);
        let back = ycbcr_to_rgb(ycbcr);
        assert!((back.0 as i32 - pixel.0 as i32).abs() <= 2, "{:?} -> {:?}", pixel, back);
        assert!((back.1 as i32 - pixel.1 as i32).abs() <= 2, "{:?} -> {:?}", pixel, back);
        assert!((back.2 as i32 - pixel.2 as i32).abs() <= 2, "{:?} -> {:?}", pixel, back);
    }
}

#[test]
fn bmp_header_fields_are_little_endian() {
    let data = solid_bmp(3, 2, (9, 8, 7));
    let bmp = BmpImage::new(&data).unwrap();
    assert_eq!(bmp.width, 3);
    assert_eq!(bmp.height, 2);
    assert_eq!(bmp.image_data_offset, 26);

    let mut bmp = bmp;
    bmp.load_pixels(&data);
    // BGR on disk becomes RGB in the grid, top-down
    assert_eq!(bmp.pixels.get_pixel(0, 0), Some((9, 8, 7)));
    assert_eq!(bmp.pixels.get_pixel(1, 2), Some((9, 8, 7)));
}

#[test]
fn uniform_gray_is_a_color_fixed_point() {
    // the three coefficient rows sum to exactly 1, 0 and 0
    assert_eq!(rgb_to_ycbcr((128, 128, 128)), (128, 128, 128));
}

#[test]
fn edge_blocks_average_only_existing_samples() {
    // a 10x2 plane whose logical region is 9x1; the lone in-range sample of
    // the last block column is 100 and must come back as 100, not halved
    // or quartered by the zero padding
    let mut plane = PixelMatrix::<u8>::new_with_default(10, 2);
    plane.set_pixel(0, 8, 100);
    let out = downsample_plane(&plane, 2, 2, 9, 1);
    assert_eq!(out.width, 5);
    assert_eq!(out.height, 1);
    assert_eq!(out.get_pixel(0, 4), Some(100));
    // a block with no in-range sample at all is padding and reads zero
    let mut tall = PixelMatrix::<u8>::new_with_default(2, 4);
    tall.set_pixel(0, 0, 80);
    let out2 = downsample_plane(&tall, 2, 2, 1, 1);
    assert_eq!(out2.get_pixel(0, 0), Some(80));
    assert_eq!(out2.get_pixel(1, 0), Some(0));
}

#[test]
fn rejected_bmp_dimensions() {
    let data = vec![0u8; 64];
    let r = BmpImage::new(&data);
    assert!(matches!(r, Err(JpegError::InvalidInput)));
}

#[test]
fn table_selector_picks_the_right_table() {
    let tables = initialize_huffman_tables();
    assert_eq!(tables.get_huffman_table(HuffmanTableType::YDC).symbols.len(), 12);
    assert_eq!(tables.get_huffman_table(HuffmanTableType::CHDC).symbols.len(), 12);
    assert_eq!(tables.get_huffman_table(HuffmanTableType::YAC).symbols.len(), 162);
    assert_eq!(tables.get_huffman_table(HuffmanTableType::CHAC).symbols.len(), 162);
    // the two AC tables differ in their canonical symbol order
    assert_ne!(
        tables.get_huffman_table(HuffmanTableType::YAC).symbols,
        tables.get_huffman_table(HuffmanTableType::CHAC).symbols
    );
}
