//! Codec for a binary "watch face" container used by fitness-tracker
//! firmware: a little-endian record stream of screen elements whose image
//! payloads live in a shared, 4-byte-aligned blob region, each image
//! compressed row by row with a run-length scheme over packed 16-bit pixels.
//!
//! The library parses a container into an editable in-memory model and
//! re-serializes the model losslessly; it also reads and writes the standard
//! bitmap interchange files that carry individual images for editing.

use vstd::prelude::*;

pub mod bmp_format;
pub mod digits;
pub mod elements;
pub mod error;
pub mod face;
pub mod img;
pub mod img_data;
pub mod sane_file_name;
pub mod util;
pub mod xy;

verus! {

} // verus!
