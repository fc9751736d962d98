//! Typed failures of the decoder.
//!
//! Every parse step reports a typed result instead of terminating the
//! process; where meaningful, the variant carries the offending byte offset
//! or table id.

use vstd::prelude::*;

verus! {

/// The reason a decode failed (or, for the comment segment, degraded).
#[derive(Clone, Copy, Debug, PartialEq, Eq, Structural)]
pub enum DecodeError {
    /// The input is not a JFIF/JPEG file: the fixed 11-byte preamble is wrong.
    HeaderMismatch,
    /// The JFIF version bytes name a version other than 1.1.
    UnsupportedVersion,
    /// The density-unit byte is outside the three defined values.
    InvalidUnits,
    /// The buffer ends before a segment (or the entropy stream) it declares.
    TruncatedInput,
    /// A marker outside the recognized set; `offset` is the index of the
    /// byte that follows the `FF`.
    UnrecognizedMarker { offset: usize },
    /// A feature outside the baseline single-component subset (multiple
    /// components, restart intervals, spectral selection, wide tables).
    UnsupportedFeature,
    /// The scan references a Huffman or quantization table id never defined.
    MissingTable { id: u8 },
    /// Huffman decode failure, an out-of-range magnitude category or
    /// coefficient, or an overrun past the 64 block positions.
    MalformedEntropyData,
    /// The comment segment is not valid UTF-8 (recorded, never fatal).
    InvalidCommentEncoding,
}

} // verus!
