//! A verified baseline JPEG/JFIF encoder.
//!
//! The pipeline converts an RGB raster to YCbCr planes, downsamples the
//! chrominance, applies an 8x8 forward DCT (a reference fixed-point form or
//! an all-lifting integer approximation) with quantization, run-length and
//! Huffman encodes the coefficients in MCU-interleaved order, and serializes
//! the JFIF container byte stream.

pub mod bitvec;
pub mod bmp_image;
pub mod colorspace;
pub mod dct_quant;
pub mod entropy_coding;
pub mod file;
pub mod huffman_tables;
pub mod jpeg_image;
pub mod sampling;
pub mod pixel_matrix;
pub mod quant_tables;

use vstd::prelude::*;

verus! {

/// The error kinds of the encoder.
#[derive(Clone, Copy, Debug, PartialEq, Eq, Structural)]
pub enum JpegError {
    /// Bad caller input: a malformed subsampling ratio or a non-BMP input.
    InvalidInput,
    /// A read or write failure on the input or output file.
    IoError,
    /// A DC coefficient difference needing more than 11 bits, or an AC
    /// coefficient needing more than 10.
    CoefficientOverflow,
    /// A run-length symbol absent from the selected Huffman table.
    MissingHuffmanCode,
}

} // verus!
