use jpeg_encoder::pixel_matrix::PixelMatrix;

/*
    test matrix:
    [
    1,1,4,2,
    1,2,2,3,
    8,8,8,9
    ]
*/

fn initialize_matrix() -> PixelMatrix<i32> {
    let mut matrix = PixelMatrix::new(4, 3);
    matrix.push_next(1);
    matrix.push_next(1);
    matrix.push_next(4);
    matrix.push_next(2);
    matrix.push_next(1);
    matrix.push_next(2);
    matrix.push_next(2);
    matrix.push_next(3);
    matrix.push_next(8);
    matrix.push_next(8);
    matrix.push_next(8);
    matrix.push_next(9);
    matrix
}

#[test]
fn pixel_matrix_push_and_get() {
    let matrix = initialize_matrix();
    let result = matrix.get_pixel(0, 0).unwrap();
    assert_eq!(result, 1);
    let result = matrix.get_pixel(1, 3).unwrap();
    assert_eq!(result, 3);
    let result = matrix.get_pixel(2, 1).unwrap();
    assert_eq!(result, 8);
    let result = matrix.get_pixel(3, 2);
    assert_eq!(result, None);
}

#[test]
fn pixel_matrix_set_pixel() {
    let mut matrix = initialize_matrix();
    matrix.set_pixel(2, 3, 8);
    let result = matrix.get_pixel(2, 3).unwrap();
    assert_eq!(result, 8);
}

#[test]
fn pixel_matrix_for_each_pixel() {
    let matrix = initialize_matrix();
    let mut accum = 0;
    for p in matrix.for_each_pixel() {
        accum += p;
    }
    assert_eq!(accum, 49);
}

#[test]
fn pixel_matrix_for_each_block() {
    let mut matrix = initialize_matrix();
    let mut biggest_of_each_block = Vec::<i32>::new();

    let mut iterator = matrix.get_block_iterator(2, 2, false);
    for block in iterator.for_each_block(&matrix) {
        biggest_of_each_block.push(*block.iter().max().unwrap());
    }

    matrix.set_pixel(2, 3, -10);
    let mut iterator = matrix.get_block_iterator(3, 1, true);
    for block in iterator.for_each_block(&matrix) {
        biggest_of_each_block.push(*block.iter().max().unwrap());
    }

    assert_eq!(biggest_of_each_block, vec![2, 4, 8, 9, 4, 2, 2, 3, 8, 0]);
}

#[test]
fn block_iterator_for_each_block() {
    let mut matrix = initialize_matrix();
    let mut biggest_of_each_block = Vec::<i32>::new();

    let mut iterator = matrix.get_block_iterator(2, 2, false);
    for block in iterator.for_each_block(&matrix) {
        biggest_of_each_block.push(*block.iter().max().unwrap());
    }

    matrix.set_pixel(2, 3, -10);
    let mut iterator = matrix.get_block_iterator(3, 1, true);
    for block in iterator.for_each_block(&matrix) {
        biggest_of_each_block.push(*block.iter().max().unwrap());
    }

    assert_eq!(biggest_of_each_block, vec![2, 4, 8, 9, 4, 2, 2, 3, 8, 0]);
}

#[test]
fn block_iterator_streams_pixels_in_block_order() {
    let matrix = initialize_matrix();
    let mut iterator = matrix.get_block_iterator(2, 2, false);
    let mut streamed = Vec::<Option<i32>>::new();
    for _ in 0..4 {
        streamed.push(iterator.get_next_pixel(&matrix));
    }
    // the first 2x2 block in stream order: rows of the top-left block
    assert_eq!(streamed, vec![Some(1), Some(1), Some(1), Some(2)]);
}
