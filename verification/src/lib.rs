//! A verified decoding core for baseline JFIF/JPEG still images.
//!
//! The crate covers the entropy-to-pixel pipeline of a grayscale baseline
//! JPEG: canonical Huffman table construction, marker-segment parsing,
//! bitstream entropy decoding of DCT coefficients, dequantization, a
//! fixed-point inverse DCT, and block-to-pixel assembly.

pub mod bits;
pub mod dct;
pub mod entropy;
pub mod errors;
pub mod huffman;
pub mod jfif;
pub mod num;
pub mod quant;
pub mod zigzag;
