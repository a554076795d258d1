use jpeg_encoder::jpeg_image::JpegImage;
use jpeg_encoder::pixel_matrix::PixelMatrix;
use jpeg_encoder::quant_tables::default_y_quantization_table;

#[test]
fn dct_quant_test_real_dct_and_quant() {
    let mut result = PixelMatrix::<i16>::new_with_default(8, 8);

    // example taken from wikipedia JPEG article, DCT section
    let input_block: Vec<u8> = vec![52,55,61,66,70,61,64,73,63,59,55,90,109,85,69,72,62,59,68,113,144,104,66,73,63,58,71,122,154,106,70,69,67,61,68,104,126,88,68,70,79,65,60,70,77,68,58,75,85,71,64,59,55,61,65,83,87,79,69,68,65,76,78,94];
    let expected: Vec<i16> = vec![-26,-3,-6,2,2,-1,0,0,0,-2,-4,1,1,0,0,0,-3,1,5,-1,-1,0,0,0,-3,1,2,-1,0,0,0,0,1,0,0,0,0,0,0,0,0,0,0,0,0,0,0,0,0,0,0,0,0,0,0,0,0,0,0,0,0,0,0,0];

    // there might be differences between the result and the expected output
    // due to rounding; accept results that are close enough on average
    let delta_error_threshold = 1;

    let mut average_error = 0.0;

    let mut block_iterator = result.get_block_iterator(8, 8, true);

    JpegImage::forward_real_dct_and_quant(
        &input_block,
        default_y_quantization_table(),
        &mut block_iterator,
        &mut result,
    );

    block_iterator.reset();

    for i in 0..64 {
        let error: f64 = (block_iterator.get_next_pixel(&result).unwrap() - expected[i]).abs() as f64;
        average_error += error;
    }

    average_error /= 64.0;

    println!("result: {:?}", result.pixels);
    println!("expected: {:?}", expected);
    println!("average error: {}", average_error);

    assert!(average_error <= (delta_error_threshold as f64));
}

#[test]
fn dct_quant_test_bin_dct_and_quant() {
    let mut result = PixelMatrix::<i16>::new_with_default(8, 8);

    // example taken from wikipedia JPEG article, DCT section
    let input_block: Vec<u8> = vec![52,55,61,66,70,61,64,73,63,59,55,90,109,85,69,72,62,59,68,113,144,104,66,73,63,58,71,122,154,106,70,69,67,61,68,104,126,88,68,70,79,65,60,70,77,68,58,75,85,71,64,59,55,61,65,83,87,79,69,68,65,76,78,94];
    let expected: Vec<i16> = vec![-26,-3,-6,2,2,-1,0,0,0,-2,-4,1,1,0,0,0,-3,1,5,-1,-1,0,0,0,-3,1,2,-1,0,0,0,0,1,0,0,0,0,0,0,0,0,0,0,0,0,0,0,0,0,0,0,0,0,0,0,0,0,0,0,0,0,0,0,0];

    let delta_error_threshold = 1;

    let mut average_error = 0.0;

    let mut block_iterator = result.get_block_iterator(8, 8, true);

    JpegImage::forward_bin_dct_and_quant(
        &input_block,
        default_y_quantization_table(),
        &mut block_iterator,
        &mut result,
    );

    block_iterator.reset();

    for i in 0..64 {
        let error: f64 = (block_iterator.get_next_pixel(&result).unwrap() - expected[i]).abs() as f64;
        average_error += error;
    }

    average_error /= 64.0;

    println!("result: {:?}", result.pixels);
    println!("expected: {:?}", expected);
    println!("average error: {}", average_error);

    assert!(average_error <= (delta_error_threshold as f64));
}

#[test]
fn jpeg_image_test_real_dct_and_quant() {
    let mut result = PixelMatrix::<i16>::new_with_default(8, 8);

    let input_block: Vec<u8> = vec![52,55,61,66,70,61,64,73,63,59,55,90,109,85,69,72,62,59,68,113,144,104,66,73,63,58,71,122,154,106,70,69,67,61,68,104,126,88,68,70,79,65,60,70,77,68,58,75,85,71,64,59,55,61,65,83,87,79,69,68,65,76,78,94];
    let expected: Vec<i16> = vec![-26,-3,-6,2,2,-1,0,0,0,-2,-4,1,1,0,0,0,-3,1,5,-1,-1,0,0,0,-3,1,2,-1,0,0,0,0,1,0,0,0,0,0,0,0,0,0,0,0,0,0,0,0,0,0,0,0,0,0,0,0,0,0,0,0,0,0,0,0];

    let delta_error_threshold = 1;
    let mut average_error = 0.0;
    let mut block_iterator = result.get_block_iterator(8, 8, true);

    JpegImage::forward_real_dct_and_quant(
        &input_block,
        default_y_quantization_table(),
        &mut block_iterator,
        &mut result,
    );
    block_iterator.reset();

    for i in 0..64 {
        let error: f64 = (block_iterator.get_next_pixel(&result).unwrap() - expected[i]).abs() as f64;
        average_error += error;
    }
    average_error /= 64.0;

    println!("result: {:?}", result.pixels);
    println!("expected: {:?}", expected);

    assert!(average_error <= (delta_error_threshold as f64));
}

#[test]
fn jpeg_image_test_bin_dct_and_quant() {
    let mut result = PixelMatrix::<i16>::new_with_default(8, 8);

    let input_block: Vec<u8> = vec![52,55,61,66,70,61,64,73,63,59,55,90,109,85,69,72,62,59,68,113,144,104,66,73,63,58,71,122,154,106,70,69,67,61,68,104,126,88,68,70,79,65,60,70,77,68,58,75,85,71,64,59,55,61,65,83,87,79,69,68,65,76,78,94];
    let expected: Vec<i16> = vec![-26,-3,-6,2,2,-1,0,0,0,-2,-4,1,1,0,0,0,-3,1,5,-1,-1,0,0,0,-3,1,2,-1,0,0,0,0,1,0,0,0,0,0,0,0,0,0,0,0,0,0,0,0,0,0,0,0,0,0,0,0,0,0,0,0,0,0,0,0];

    let delta_error_threshold = 1;
    let mut average_error = 0.0;
    let mut block_iterator = result.get_block_iterator(8, 8, true);

    JpegImage::forward_bin_dct_and_quant(
        &input_block,
        default_y_quantization_table(),
        &mut block_iterator,
        &mut result,
    );
    block_iterator.reset();

    for i in 0..64 {
        let error: f64 = (block_iterator.get_next_pixel(&result).unwrap() - expected[i]).abs() as f64;
        average_error += error;
    }
    average_error /= 64.0;

    println!("result: {:?}", result.pixels);
    println!("expected: {:?}", expected);

    assert!(average_error <= (delta_error_threshold as f64));
}

#[test]
fn all_level_shifted_zeros_quantize_to_zero() {
    // an 8x8 block of 128 level-shifts to 0: all 64 quantized coefficients are 0
    let input_block: Vec<u8> = vec![128; 64];
    let mut result = PixelMatrix::<i16>::new_with_default(8, 8);
    let mut block_iterator = result.get_block_iterator(8, 8, true);
    JpegImage::forward_bin_dct_and_quant(
        &input_block,
        default_y_quantization_table(),
        &mut block_iterator,
        &mut result,
    );
    for v in result.pixels.iter() {
        assert_eq!(*v, 0);
    }
}

#[test]
fn constant_block_keeps_only_its_dc() {
    // a constant block of 200 level-shifts to 72; the binDCT concentrates
    // it into DC = (16 * 72) / Q[0] and 63 zero AC coefficients
    let input_block: Vec<u8> = vec![200; 64];
    let mut result = PixelMatrix::<i16>::new_with_default(8, 8);
    let mut block_iterator = result.get_block_iterator(8, 8, true);
    JpegImage::forward_bin_dct_and_quant(
        &input_block,
        default_y_quantization_table(),
        &mut block_iterator,
        &mut result,
    );
    assert_eq!(result.pixels[0], (16 * 72) / 16);
    for v in result.pixels.iter().skip(1) {
        assert_eq!(*v, 0);
    }
}
