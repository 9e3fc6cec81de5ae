//! The error taxonomy of the codec.
//!
//! Every variant is structural and fatal: it means the input is not a valid
//! instance of the format, or the in-memory model cannot be encoded.
//! Per-asset problems (a missing or unsafe file name, an unreadable asset
//! file) are not errors of this kind; those degrade to a skipped asset.

use vstd::prelude::*;

verus! {

#[derive(Clone, Copy, PartialEq, Eq, Structural, Debug)]
pub enum FaceError {
    /// A read would run past the end of the input buffer.
    Truncated,
    /// The element stream holds a type code with no known layout; the record
    /// cannot be skipped because element sizes are not self-describing.
    UnknownElementType,
    /// A digit-font record's declared index differs from its position.
    DigitIndexMismatch,
    /// An emitted element's byte length differs from its declared `bin_size`.
    ElementSizeMismatch,
    /// The assembled header bytes differ from the precomputed header size.
    HeaderSizeMismatch,
    /// An image declares zero rows, so its payload size cannot be derived.
    ZeroHeight,
    /// A compressed row is longer than the 2047 bytes its header can record.
    RowTooLong,
    /// A blob offset exceeds the range an offset field can record.
    OffsetTooLarge,
    /// A compressed stream does not decode to exactly the declared pixel area.
    CorruptRle,
    /// The bitmap file is shorter than its own header.
    BmpTooSmall,
    /// The bitmap file does not start with the format's signature.
    BmpBadSignature,
    /// The bitmap header size is none of the recognised layouts.
    BmpBadHeader,
    /// The bitmap has reserved fields set or a plane count other than one.
    BmpUnusual,
    /// The bitmap bit depth is not 16, 24 or 32 bits per pixel.
    BmpBadDepth,
    /// The bitmap's channel masks are not the standard ones for its depth.
    BmpBadMasks,
    /// The bitmap is compressed in a form the reader does not take.
    BmpCompressed,
    /// The bitmap's declared image data size fits neither the header nor the
    /// file length.
    BmpBadDataSize,
}

impl FaceError {
    /// A short description of the error.
    pub fn message(&self) -> (r: &'static str)
        ensures
            r@.len() > 0,
    {
        let s = match self {
            FaceError::Truncated => "input ends before the structure it should hold",
            FaceError::UnknownElementType => "unknown element type code",
            FaceError::DigitIndexMismatch => "digit font set index does not match its position",
            FaceError::ElementSizeMismatch => "element bytes differ from declared bin_size",
            FaceError::HeaderSizeMismatch => "assembled header differs from computed size",
            FaceError::ZeroHeight => "image with zero rows has no derivable size",
            FaceError::RowTooLong => "compressed row is too long to be stored",
            FaceError::OffsetTooLarge => "compressed data is too big to be stored",
            FaceError::CorruptRle => "compressed stream does not match the pixel area",
            FaceError::BmpTooSmall => "bitmap file is too small",
            FaceError::BmpBadSignature => "file is not a bitmap",
            FaceError::BmpBadHeader => "bitmap header format unrecognised",
            FaceError::BmpUnusual => "bitmap is unusual, cannot read it",
            FaceError::BmpBadDepth => "bitmap must be 16, 24 or 32 bits per pixel",
            FaceError::BmpBadMasks => "bitmap channel masks are not the standard ones",
            FaceError::BmpCompressed => "bitmap must be uncompressed",
            FaceError::BmpBadDataSize => "bitmap image data size does not make sense",
        };
        proof {
            reveal_strlit("input ends before the structure it should hold");
            reveal_strlit("unknown element type code");
            reveal_strlit("digit font set index does not match its position");
            reveal_strlit("element bytes differ from declared bin_size");
            reveal_strlit("assembled header differs from computed size");
            reveal_strlit("image with zero rows has no derivable size");
            reveal_strlit("compressed row is too long to be stored");
            reveal_strlit("compressed data is too big to be stored");
            reveal_strlit("compressed stream does not match the pixel area");
            reveal_strlit("bitmap file is too small");
            reveal_strlit("file is not a bitmap");
            reveal_strlit("bitmap header format unrecognised");
            reveal_strlit("bitmap is unusual, cannot read it");
            reveal_strlit("bitmap must be 16, 24 or 32 bits per pixel");
            reveal_strlit("bitmap channel masks are not the standard ones");
            reveal_strlit("bitmap must be uncompressed");
            reveal_strlit("bitmap image data size does not make sense");
        }
        s
    }
}

} // verus!
