//! A reusable digit font: ten glyph images and two bytes passed through
//! unchanged.  The container stores these in fixed 83-byte records whose
//! index byte must equal the record's position.

use vstd::prelude::*;
use crate::error::FaceError;
use crate::img_data::ImgData;
use crate::elements::{owh_slot_ok, owh_slot_parse};
use crate::util::{get_u16, le16_at};

verus! {

/// One ten-glyph digit font set.
#[derive(Clone, PartialEq, Debug)]
pub struct Digits {
    /// The ten glyph images, one per decimal digit.
    pub img_data: Vec<ImgData>,
    pub unknown: u16,
}

/// The parse conditions of the digit record at `o` whose position is
/// `expected_set`: the record must fit, its index byte must equal the
/// position, and all ten glyph images must load.
pub open spec fn digits_parse_ok(file: Seq<u8>, o: int, expected_set: int) -> bool {
    o + 83 <= file.len() && file[o] == expected_set && (forall|i: int|
        0 <= i < 10 ==> #[trigger] owh_slot_ok(file, o + 1, i))
}

/// `d` holds exactly the digit record stored at `o`.
pub open spec fn is_digits_parse(file: Seq<u8>, o: int, d: Digits) -> bool {
    d.img_data@.len() == 10 && (forall|i: int|
        0 <= i < 10 ==> #[trigger] owh_slot_parse(file, o + 1, i, d.img_data@[i])) && d.unknown
        == le16_at(file, o + 81)
}

impl Digits {
    /// The font has exactly ten glyphs.
    pub open spec fn wf(self) -> bool {
        self.img_data@.len() == 10
    }

    /// Read the digit record at `offset`, which must be record number
    /// `expected_set`: a mismatched index byte is a structural error.
    pub fn from_bin(file_data: &[u8], offset: usize, expected_set: usize) -> (r: Result<
        Digits,
        FaceError,
    >)
        ensures
            match r {
                Ok(d) => digits_parse_ok(file_data@, offset as int, expected_set as int)
                    && is_digits_parse(file_data@, offset as int, d) && d.wf() && (forall|i: int|
                    0 <= i < 10 ==> d.img_data@[i].wf()),
                Err(_) => !digits_parse_ok(file_data@, offset as int, expected_set as int),
            },
    {
        let n = file_data.len();
        if n < 83 || offset > n - 83 {
            return Err(FaceError::Truncated);
        }
        let set = file_data[offset];
        if set as usize != expected_set {
            return Err(FaceError::DigitIndexMismatch);
        }
        let mut img_data: Vec<ImgData> = Vec::new();
        let mut i: usize = 0;
        while i < 10
            invariant
                i <= 10,
                n == file_data@.len(),
                offset + 83 <= n,
                img_data@.len() == i,
                forall|j: int| 0 <= j < i ==> #[trigger] owh_slot_ok(file_data@, offset + 1, j),
                forall|j: int|
                    0 <= j < i ==> owh_slot_parse(
                        file_data@,
                        offset + 1,
                        j,
                        #[trigger] img_data@[j],
                    ) && img_data@[j].wf(),
            decreases 10 - i,
        {
            let id = match ImgData::from_owh(file_data, offset + 1 + 8 * i) {
                Ok(id) => id,
                Err(e) => {
                    proof {
                        assert(!owh_slot_ok(file_data@, offset + 1, i as int));
                    }
                    return Err(e);
                },
            };
            img_data.push(id);
            i = i + 1;
        }
        let unknown = get_u16(file_data, offset + 81);
        Ok(Digits { img_data, unknown })
    }
}

} // verus!
