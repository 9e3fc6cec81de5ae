//! The element codec: the tagged record kinds drawn on the face and their
//! binary form.  Every element starts with a flag byte of one and a type
//! byte; image-bearing fields are 8-byte records of a blob offset, width
//! and height, whose payloads the container writes into the shared blob
//! region as the elements are emitted.

use vstd::prelude::*;
use crate::error::FaceError;
use crate::img_data::{ImgData, is_owh_parse, owh_ok};
use crate::util::{align4_spec, get_u16, push_u16, push_u32, le16_at, u16_le_bytes, u32_le_bytes};
use crate::xy::{XY, xy_bytes, xy_parse};

verus! {

/// The 8-byte record that points at an image: blob offset, width, height.
pub open spec fn owh_bytes(off: int, id: ImgData) -> Seq<u8> {
    u32_le_bytes(off as u32) + u16_le_bytes(id.w) + u16_le_bytes(id.h)
}

/// The record `i` slots after `base` points to a loadable image.
pub open spec fn owh_slot_ok(file: Seq<u8>, base: int, i: int) -> bool {
    owh_ok(file, base + 8 * i)
}

/// `id` holds the image of the record `i` slots after `base`.
pub open spec fn owh_slot_parse(file: Seq<u8>, base: int, i: int, id: ImgData) -> bool {
    is_owh_parse(file, base + 8 * i, id)
}

/// The bytes an image contributes to the blob region.
pub open spec fn img_pay(id: ImgData) -> Seq<u8> {
    id.bin_bytes()
}

/// How many blob bytes an image contributes, filler included.
pub open spec fn img_pay_len(id: ImgData) -> int {
    align4_spec(id.header@.len() + id.data@.len() as int)
}

/// The pointer records of a run of images whose payloads start at `off`,
/// each record pointing where the previous payloads end.
pub open spec fn owh_seq_bytes(ids: Seq<ImgData>, off: int) -> Seq<u8>
    decreases ids.len(),
{
    if ids.len() == 0 {
        Seq::empty()
    } else {
        owh_bytes(off, ids[0]) + owh_seq_bytes(ids.drop_first(), off + img_pay_len(ids[0]))
    }
}

/// The blob bytes of a run of images, in order.
pub open spec fn pay_seq_bytes(ids: Seq<ImgData>) -> Seq<u8>
    decreases ids.len(),
{
    if ids.len() == 0 {
        Seq::empty()
    } else {
        img_pay(ids[0]) + pay_seq_bytes(ids.drop_first())
    }
}

/// Write one image: its pointer record onto `h`, its payload onto
/// `blob_data`, advancing the running blob offset.  Fails, changing
/// nothing, when the offset would run past what a 32-bit field can hold.
pub fn write_img_one(id: &ImgData, h: &mut Vec<u8>, blob_data: &mut Vec<u8>, blob_offset: &mut u32)
    -> (r: Result<(), FaceError>)
    ensures
        match r {
            Ok(()) => final(h)@ == old(h)@ + owh_bytes(*old(blob_offset) as int, *id) && final(blob_data)@ == old(blob_data)@ + img_pay(*id) && *final(blob_offset) == *old(blob_offset)
                + img_pay_len(*id),
            Err(e) => e == FaceError::OffsetTooLarge && *final(h) == *old(h) && *final(blob_data)
                == *old(blob_data) && *final(blob_offset) == *old(blob_offset) && *old(blob_offset) + img_pay_len(*id) > u32::MAX,
        },
{
    let bd = id.to_bin();
    if bd.len() as u64 > (u32::MAX as u64) - (*blob_offset as u64) {
        return Err(FaceError::OffsetTooLarge);
    }
    push_u32(h, *blob_offset);
    push_u16(h, id.w);
    push_u16(h, id.h);
    *blob_offset = *blob_offset + (bd.len() as u32);
    let mut bd_moved = bd;
    blob_data.append(&mut bd_moved);
    proof {
        assert(final(h)@ =~= old(h)@ + owh_bytes(*old(blob_offset) as int, *id));
    }
    Ok(())
}

/// Write a run of images in order, pointer records onto `h`, payloads onto
/// `blob_data`.  Fails when the running offset would overflow; `h`,
/// `blob_data` and the offset may then hold a prefix of the run.
pub fn write_img_seq(ids: &Vec<ImgData>, h: &mut Vec<u8>, blob_data: &mut Vec<u8>,
    blob_offset: &mut u32) -> (r: Result<(), FaceError>)
    ensures
        match r {
            Ok(()) => final(h)@ == old(h)@ + owh_seq_bytes(ids@, *old(blob_offset) as int) && final(blob_data)@ == old(blob_data)@ + pay_seq_bytes(ids@) && *final(blob_offset) == *old(blob_offset)
                + pay_seq_bytes(ids@).len(),
            Err(e) => e == FaceError::OffsetTooLarge && *old(blob_offset) + pay_seq_bytes(ids@).len() > u32::MAX,
        },
{
    let n = ids.len();
    let mut i: usize = 0;
    proof {
        assert(ids@.skip(0) =~= ids@);
        assert(old(h)@ + Seq::<u8>::empty() =~= old(h)@);
        assert(old(blob_data)@ + Seq::<u8>::empty() =~= old(blob_data)@);
    }
    while i < n
        invariant
            i <= n,
            n == ids@.len(),
            owh_seq_bytes(ids@, *old(blob_offset) as int) == (h@.skip(old(h)@.len() as int))
                + owh_seq_bytes(ids@.skip(i as int), *blob_offset as int),
            pay_seq_bytes(ids@) == (blob_data@.skip(old(blob_data)@.len() as int)) + pay_seq_bytes(
                ids@.skip(i as int),
            ),
            h@.len() >= old(h)@.len(),
            h@.take(old(h)@.len() as int) == old(h)@,
            blob_data@.len() >= old(blob_data)@.len(),
            blob_data@.take(old(blob_data)@.len() as int) == old(blob_data)@,
            *blob_offset == *old(blob_offset) + (blob_data@.len() - old(blob_data)@.len()),
        decreases n - i,
    {
        let ghost h_pre = h@;
        let ghost bd_pre = blob_data@;
        let ghost off_pre = *blob_offset;
        if let Err(e) = write_img_one(&ids[i], h, blob_data, blob_offset) {
            proof {
                let ii = i as int;
                assert(ids@.skip(ii)[0] == ids@[ii]);
                assert(img_pay(ids@[ii]).len() == img_pay_len(ids@[ii]));
                assert(pay_seq_bytes(ids@.skip(ii)).len() >= img_pay_len(ids@[ii]));
            }
            return Err(e);
        }
        proof {
            let ii = i as int;
            assert(ids@.skip(ii)[0] == ids@[ii]);
            assert(ids@.skip(ii).drop_first() =~= ids@.skip(ii + 1));
            assert(h@.skip(old(h)@.len() as int) =~= (h_pre.skip(old(h)@.len() as int))
                + owh_bytes(off_pre as int, ids@[ii]));
            assert(blob_data@.skip(old(blob_data)@.len() as int) =~= (bd_pre.skip(
                old(blob_data)@.len() as int,
            )) + img_pay(ids@[ii]));
            assert((h_pre.skip(old(h)@.len() as int)) + (owh_bytes(off_pre as int, ids@[ii])
                + owh_seq_bytes(ids@.skip(ii + 1), *blob_offset as int)) =~= ((h_pre.skip(
                old(h)@.len() as int,
            )) + owh_bytes(off_pre as int, ids@[ii])) + owh_seq_bytes(
                ids@.skip(ii + 1),
                *blob_offset as int,
            ));
            assert((bd_pre.skip(old(blob_data)@.len() as int)) + (img_pay(ids@[ii])
                + pay_seq_bytes(ids@.skip(ii + 1))) =~= ((bd_pre.skip(old(blob_data)@.len() as int))
                + img_pay(ids@[ii])) + pay_seq_bytes(ids@.skip(ii + 1)));
            assert(h@.take(old(h)@.len() as int) =~= old(h)@);
            assert(blob_data@.take(old(blob_data)@.len() as int) =~= old(blob_data)@);
        }
        i = i + 1;
    }
    proof {
        assert(ids@.skip(n as int) =~= Seq::<ImgData>::empty());
        assert(h@.skip(old(h)@.len() as int) + Seq::<u8>::empty() =~= h@.skip(
            old(h)@.len() as int,
        ));
        assert(blob_data@.skip(old(blob_data)@.len() as int) + Seq::<u8>::empty() =~= blob_data@.skip(
            old(blob_data)@.len() as int,
        ));
        assert(h@ =~= old(h)@ + h@.skip(old(h)@.len() as int));
        assert(blob_data@ =~= old(blob_data)@ + blob_data@.skip(old(blob_data)@.len() as int));
    }
    Ok(())
}

// ---------------------------------------------------------------------------
// Element kinds without image fields
// ---------------------------------------------------------------------------

/// The serialized coordinates of a run of digit positions.
pub open spec fn xys_bytes(xys: Seq<XY>) -> Seq<u8>
    decreases xys.len(),
{
    if xys.len() == 0 {
        Seq::empty()
    } else {
        xy_bytes(xys[0]) + xys_bytes(xys.drop_first())
    }
}

proof fn lemma_xys_bytes_len(xys: Seq<XY>)
    ensures
        xys_bytes(xys).len() == 4 * xys.len(),
    decreases xys.len(),
{
    if xys.len() > 0 {
        lemma_xys_bytes_len(xys.drop_first());
    }
}

/// Append the serialized form of each coordinate pair in `xys`.
fn push_xys(h: &mut Vec<u8>, xys: &Vec<XY>)
    ensures
        final(h)@ == old(h)@ + xys_bytes(xys@),
{
    let n = xys.len();
    let mut i: usize = 0;
    proof {
        assert(xys@.skip(0) =~= xys@);
        assert(old(h)@ + Seq::<u8>::empty() =~= old(h)@);
    }
    while i < n
        invariant
            i <= n,
            n == xys@.len(),
            xys_bytes(xys@) == h@.skip(old(h)@.len() as int) + xys_bytes(xys@.skip(i as int)),
            h@.len() >= old(h)@.len(),
            h@.take(old(h)@.len() as int) == old(h)@,
        decreases n - i,
    {
        let ghost h_pre = h@;
        let b = xys[i].to_bin();
        h.push(b[0]);
        h.push(b[1]);
        h.push(b[2]);
        h.push(b[3]);
        proof {
            let ii = i as int;
            assert(xys@.skip(ii)[0] == xys@[ii]);
            assert(xys@.skip(ii).drop_first() =~= xys@.skip(ii + 1));
            assert(h@.skip(old(h)@.len() as int) =~= h_pre.skip(old(h)@.len() as int) + xy_bytes(
                xys@[ii],
            ));
            assert(h_pre.skip(old(h)@.len() as int) + (xy_bytes(xys@[ii]) + xys_bytes(
                xys@.skip(ii + 1),
            )) =~= (h_pre.skip(old(h)@.len() as int) + xy_bytes(xys@[ii])) + xys_bytes(
                xys@.skip(ii + 1),
            ));
            assert(h@.take(old(h)@.len() as int) =~= old(h)@);
        }
        i = i + 1;
    }
    proof {
        assert(xys@.skip(n as int) =~= Seq::<XY>::empty());
        assert(h@.skip(old(h)@.len() as int) + Seq::<u8>::empty() =~= h@.skip(
            old(h)@.len() as int,
        ));
        assert(h@ =~= old(h)@ + h@.skip(old(h)@.len() as int));
    }
}

/// Append each byte of `bytes`.
fn push_bytes(h: &mut Vec<u8>, bytes: &Vec<u8>)
    ensures
        final(h)@ == old(h)@ + bytes@,
{
    let n = bytes.len();
    let mut i: usize = 0;
    while i < n
        invariant
            i <= n,
            n == bytes@.len(),
            h@ == old(h)@ + bytes@.take(i as int),
        decreases n - i,
    {
        h.push(bytes[i]);
        proof {
            assert(h@ =~= old(h)@ + bytes@.take(i + 1));
        }
        i = i + 1;
    }
    proof {
        assert(old(h)@ + bytes@.take(n as int) =~= old(h)@ + bytes@);
    }
}

/// Copy `count` bytes starting at `from` out of `file_data`.
fn copy_bytes(file_data: &[u8], from: usize, count: usize) -> (r: Vec<u8>)
    requires
        from + count <= file_data@.len(),
    ensures
        r@ == file_data@.subrange(from as int, from + count),
{
    let n = file_data.len();
    let mut v: Vec<u8> = Vec::new();
    let mut i: usize = 0;
    while i < count
        invariant
            i <= count,
            from + count <= usize::MAX,
            from + count <= file_data@.len(),
            v@ == file_data@.subrange(from as int, from + i),
        decreases count - i,
    {
        v.push(file_data[from + i]);
        proof {
            assert(v@ =~= file_data@.subrange(from as int, from + (i + 1)));
        }
        i = i + 1;
    }
    v
}

/// The time display: which digit font each of the four digits uses, where
/// each digit sits, and twelve bytes passed through unchanged.
#[derive(Clone, PartialEq, Debug)]
pub struct TimeNum {
    pub digit_sets: Vec<u8>,
    pub xys: Vec<XY>,
    pub unknown: Vec<u8>,
}

/// The serialized body of a time display.
pub open spec fn time_num_bytes(v: TimeNum) -> Seq<u8> {
    v.digit_sets@ + xys_bytes(v.xys@) + v.unknown@
}

/// `v` holds exactly the fields stored at `o`.
pub open spec fn is_time_num_parse(file: Seq<u8>, o: int, v: TimeNum) -> bool {
    v.digit_sets@ == file.subrange(o, o + 4) && v.xys@.len() == 4 && (forall|i: int|
        0 <= i < 4 ==> v.xys@[i] == xy_parse(file, o + 4 + 4 * i)) && v.unknown@ == file.subrange(
        o + 20,
        o + 32,
    )
}

impl TimeNum {
    /// The field vectors have their declared lengths.
    pub open spec fn wf(self) -> bool {
        self.digit_sets@.len() == 4 && self.xys@.len() == 4 && self.unknown@.len() == 12
    }

    /// Read the body stored at `offset`.
    pub fn from_bin(file_data: &[u8], offset: usize) -> (r: Result<TimeNum, FaceError>)
        ensures
            match r {
                Ok(v) => offset + 32 <= file_data@.len() && is_time_num_parse(
                    file_data@,
                    offset as int,
                    v,
                ) && v.wf(),
                Err(e) => e == FaceError::Truncated && offset + 32 > file_data@.len(),
            },
    {
        let n = file_data.len();
        if n < 32 || offset > n - 32 {
            return Err(FaceError::Truncated);
        }
        let digit_sets = copy_bytes(file_data, offset, 4);
        let mut xys: Vec<XY> = Vec::new();
        xys.push(XY::from_bin(file_data, offset + 4));
        xys.push(XY::from_bin(file_data, offset + 8));
        xys.push(XY::from_bin(file_data, offset + 12));
        xys.push(XY::from_bin(file_data, offset + 16));
        let unknown = copy_bytes(file_data, offset + 20, 12);
        let v = TimeNum { digit_sets, xys, unknown };
        proof {
            assert forall|i: int| 0 <= i < 4 implies v.xys@[i] == xy_parse(
                file_data@,
                offset + 4 + 4 * i,
            ) by {
            }
        }
        Ok(v)
    }

    /// The serialized body.
    pub fn to_bin(&self) -> (r: Vec<u8>)
        ensures
            r@ == time_num_bytes(*self),
            self.wf() ==> r@.len() == 32,
    {
        let mut h: Vec<u8> = Vec::new();
        push_bytes(&mut h, &self.digit_sets);
        push_xys(&mut h, &self.xys);
        push_bytes(&mut h, &self.unknown);
        proof {
            assert(Seq::<u8>::empty() + self.digit_sets@ =~= self.digit_sets@);
            assert(h@ =~= time_num_bytes(*self));
            lemma_xys_bytes_len(self.xys@);
        }
        h
    }
}

/// A two-digit-set numeric display body: digit font, alignment, position,
/// and a run of bytes passed through unchanged.
#[derive(Clone, PartialEq, Debug)]
pub struct HeartRateNum {
    pub digit_set: u8,
    pub align: u8,
    pub x: u16,
    pub y: u16,
    pub unknown: Vec<u8>,
}

/// The serialized body of a numeric display with `unknown` passed through.
pub open spec fn num_body_bytes(digit_set: u8, align: u8, x: u16, y: u16, unknown: Seq<u8>) -> Seq<
    u8,
> {
    seq![digit_set, align] + u16_le_bytes(x) + u16_le_bytes(y) + unknown
}

/// The fields of a numeric display stored at `o` with `k` trailing bytes.
pub open spec fn is_num_body_parse(file: Seq<u8>, o: int, k: int, digit_set: u8, align: u8,
    x: u16, y: u16, unknown: Seq<u8>) -> bool {
    digit_set == file[o] && align == file[o + 1] && x == le16_at(file, o + 2) && y == le16_at(
        file,
        o + 4,
    ) && unknown == file.subrange(o + 6, o + 6 + k)
}

impl HeartRateNum {
    pub open spec fn wf(self) -> bool {
        self.unknown@.len() == 18
    }

    /// Read the body stored at `offset`.
    pub fn from_bin(file_data: &[u8], offset: usize) -> (r: Result<HeartRateNum, FaceError>)
        ensures
            match r {
                Ok(v) => offset + 24 <= file_data@.len() && is_num_body_parse(
                    file_data@,
                    offset as int,
                    18,
                    v.digit_set,
                    v.align,
                    v.x,
                    v.y,
                    v.unknown@,
                ) && v.wf(),
                Err(e) => e == FaceError::Truncated && offset + 24 > file_data@.len(),
            },
    {
        let n = file_data.len();
        if n < 24 || offset > n - 24 {
            return Err(FaceError::Truncated);
        }
        Ok(
            HeartRateNum {
                digit_set: file_data[offset],
                align: file_data[offset + 1],
                x: get_u16(file_data, offset + 2),
                y: get_u16(file_data, offset + 4),
                unknown: copy_bytes(file_data, offset + 6, 18),
            },
        )
    }

    /// The serialized body.
    pub fn to_bin(&self) -> (r: Vec<u8>)
        ensures
            r@ == num_body_bytes(self.digit_set, self.align, self.x, self.y, self.unknown@),
            self.wf() ==> r@.len() == 24,
    {
        let mut h: Vec<u8> = Vec::new();
        h.push(self.digit_set);
        h.push(self.align);
        push_u16(&mut h, self.x);
        push_u16(&mut h, self.y);
        push_bytes(&mut h, &self.unknown);
        proof {
            assert(h@ =~= num_body_bytes(self.digit_set, self.align, self.x, self.y,
                self.unknown@));
        }
        h
    }
}

/// The step-count display; same body layout as the heart-rate display.
#[derive(Clone, PartialEq, Debug)]
pub struct StepsNum {
    pub digit_set: u8,
    pub align: u8,
    pub x: u16,
    pub y: u16,
    pub unknown: Vec<u8>,
}

impl StepsNum {
    pub open spec fn wf(self) -> bool {
        self.unknown@.len() == 18
    }

    /// Read the body stored at `offset`.
    pub fn from_bin(file_data: &[u8], offset: usize) -> (r: Result<StepsNum, FaceError>)
        ensures
            match r {
                Ok(v) => offset + 24 <= file_data@.len() && is_num_body_parse(
                    file_data@,
                    offset as int,
                    18,
                    v.digit_set,
                    v.align,
                    v.x,
                    v.y,
                    v.unknown@,
                ) && v.wf(),
                Err(e) => e == FaceError::Truncated && offset + 24 > file_data@.len(),
            },
    {
        let n = file_data.len();
        if n < 24 || offset > n - 24 {
            return Err(FaceError::Truncated);
        }
        Ok(
            StepsNum {
                digit_set: file_data[offset],
                align: file_data[offset + 1],
                x: get_u16(file_data, offset + 2),
                y: get_u16(file_data, offset + 4),
                unknown: copy_bytes(file_data, offset + 6, 18),
            },
        )
    }

    /// The serialized body.
    pub fn to_bin(&self) -> (r: Vec<u8>)
        ensures
            r@ == num_body_bytes(self.digit_set, self.align, self.x, self.y, self.unknown@),
            self.wf() ==> r@.len() == 24,
    {
        let mut h: Vec<u8> = Vec::new();
        h.push(self.digit_set);
        h.push(self.align);
        push_u16(&mut h, self.x);
        push_u16(&mut h, self.y);
        push_bytes(&mut h, &self.unknown);
        proof {
            assert(h@ =~= num_body_bytes(self.digit_set, self.align, self.x, self.y,
                self.unknown@));
        }
        h
    }
}

/// The calorie display; the same body layout with eleven trailing bytes.
#[derive(Clone, PartialEq, Debug)]
pub struct KCalNum {
    pub digit_set: u8,
    pub align: u8,
    pub x: u16,
    pub y: u16,
    pub unknown: Vec<u8>,
}

impl KCalNum {
    pub open spec fn wf(self) -> bool {
        self.unknown@.len() == 11
    }

    /// Read the body stored at `offset`.
    pub fn from_bin(file_data: &[u8], offset: usize) -> (r: Result<KCalNum, FaceError>)
        ensures
            match r {
                Ok(v) => offset + 17 <= file_data@.len() && is_num_body_parse(
                    file_data@,
                    offset as int,
                    11,
                    v.digit_set,
                    v.align,
                    v.x,
                    v.y,
                    v.unknown@,
                ) && v.wf(),
                Err(e) => e == FaceError::Truncated && offset + 17 > file_data@.len(),
            },
    {
        let n = file_data.len();
        if n < 17 || offset > n - 17 {
            return Err(FaceError::Truncated);
        }
        Ok(
            KCalNum {
                digit_set: file_data[offset],
                align: file_data[offset + 1],
                x: get_u16(file_data, offset + 2),
                y: get_u16(file_data, offset + 4),
                unknown: copy_bytes(file_data, offset + 6, 11),
            },
        )
    }

    /// The serialized body.
    pub fn to_bin(&self) -> (r: Vec<u8>)
        ensures
            r@ == num_body_bytes(self.digit_set, self.align, self.x, self.y, self.unknown@),
            self.wf() ==> r@.len() == 17,
    {
        let mut h: Vec<u8> = Vec::new();
        h.push(self.digit_set);
        h.push(self.align);
        push_u16(&mut h, self.x);
        push_u16(&mut h, self.y);
        push_bytes(&mut h, &self.unknown);
        proof {
            assert(h@ =~= num_body_bytes(self.digit_set, self.align, self.x, self.y,
                self.unknown@));
        }
        h
    }
}

/// The day-of-month display: digit font, alignment, and the two digits'
/// positions.
#[derive(Clone, PartialEq, Debug)]
pub struct DayNum {
    pub digit_set: u8,
    pub align: u8,
    pub xys: Vec<XY>,
}

/// The serialized body of a two-digit display.
pub open spec fn two_digit_bytes(digit_set: u8, align: u8, xys: Seq<XY>) -> Seq<u8> {
    seq![digit_set, align] + xys_bytes(xys)
}

/// The fields of a two-digit display stored at `o`.
pub open spec fn is_two_digit_parse(file: Seq<u8>, o: int, digit_set: u8, align: u8, xys: Seq<
    XY,
>) -> bool {
    digit_set == file[o] && align == file[o + 1] && xys.len() == 2 && xys[0] == xy_parse(
        file,
        o + 2,
    ) && xys[1] == xy_parse(file, o + 6)
}

impl DayNum {
    pub open spec fn wf(self) -> bool {
        self.xys@.len() == 2
    }

    /// Read the body stored at `offset`.
    pub fn from_bin(file_data: &[u8], offset: usize) -> (r: Result<DayNum, FaceError>)
        ensures
            match r {
                Ok(v) => offset + 10 <= file_data@.len() && is_two_digit_parse(
                    file_data@,
                    offset as int,
                    v.digit_set,
                    v.align,
                    v.xys@,
                ) && v.wf(),
                Err(e) => e == FaceError::Truncated && offset + 10 > file_data@.len(),
            },
    {
        let n = file_data.len();
        if n < 10 || offset > n - 10 {
            return Err(FaceError::Truncated);
        }
        let mut xys: Vec<XY> = Vec::new();
        xys.push(XY::from_bin(file_data, offset + 2));
        xys.push(XY::from_bin(file_data, offset + 6));
        Ok(DayNum { digit_set: file_data[offset], align: file_data[offset + 1], xys })
    }

    /// The serialized body.
    pub fn to_bin(&self) -> (r: Vec<u8>)
        ensures
            r@ == two_digit_bytes(self.digit_set, self.align, self.xys@),
            self.wf() ==> r@.len() == 10,
    {
        let mut h: Vec<u8> = Vec::new();
        h.push(self.digit_set);
        h.push(self.align);
        push_xys(&mut h, &self.xys);
        proof {
            assert(h@ =~= two_digit_bytes(self.digit_set, self.align, self.xys@));
            lemma_xys_bytes_len(self.xys@);
        }
        h
    }
}

/// The month display; the same body layout as the day display.
#[derive(Clone, PartialEq, Debug)]
pub struct MonthNum {
    pub digit_set: u8,
    pub align: u8,
    pub xys: Vec<XY>,
}

impl MonthNum {
    pub open spec fn wf(self) -> bool {
        self.xys@.len() == 2
    }

    /// Read the body stored at `offset`.
    pub fn from_bin(file_data: &[u8], offset: usize) -> (r: Result<MonthNum, FaceError>)
        ensures
            match r {
                Ok(v) => offset + 10 <= file_data@.len() && is_two_digit_parse(
                    file_data@,
                    offset as int,
                    v.digit_set,
                    v.align,
                    v.xys@,
                ) && v.wf(),
                Err(e) => e == FaceError::Truncated && offset + 10 > file_data@.len(),
            },
    {
        let n = file_data.len();
        if n < 10 || offset > n - 10 {
            return Err(FaceError::Truncated);
        }
        let mut xys: Vec<XY> = Vec::new();
        xys.push(XY::from_bin(file_data, offset + 2));
        xys.push(XY::from_bin(file_data, offset + 6));
        Ok(MonthNum { digit_set: file_data[offset], align: file_data[offset + 1], xys })
    }

    /// The serialized body.
    pub fn to_bin(&self) -> (r: Vec<u8>)
        ensures
            r@ == two_digit_bytes(self.digit_set, self.align, self.xys@),
            self.wf() ==> r@.len() == 10,
    {
        let mut h: Vec<u8> = Vec::new();
        h.push(self.digit_set);
        h.push(self.align);
        push_xys(&mut h, &self.xys);
        proof {
            assert(h@ =~= two_digit_bytes(self.digit_set, self.align, self.xys@));
            lemma_xys_bytes_len(self.xys@);
        }
        h
    }
}

/// A one-byte record of unknown meaning, carried through unchanged.
#[derive(Clone, PartialEq, Eq, Structural, Debug)]
pub struct Unknown29 {
    pub unknown: u8,
}

impl Unknown29 {
    /// Read the body stored at `offset`.
    pub fn from_bin(file_data: &[u8], offset: usize) -> (r: Result<Unknown29, FaceError>)
        ensures
            match r {
                Ok(v) => offset + 1 <= file_data@.len() && v.unknown == file_data@[offset as int],
                Err(e) => e == FaceError::Truncated && offset + 1 > file_data@.len(),
            },
    {
        let n = file_data.len();
        if n < 1 || offset > n - 1 {
            return Err(FaceError::Truncated);
        }
        Ok(Unknown29 { unknown: file_data[offset] })
    }

    /// The serialized body.
    pub fn to_bin(&self) -> (r: Vec<u8>)
        ensures
            r@ == seq![self.unknown],
    {
        let mut h: Vec<u8> = Vec::new();
        h.push(self.unknown);
        h
    }
}

// ---------------------------------------------------------------------------
// Element kinds with image fields
// ---------------------------------------------------------------------------

proof fn lemma_owh_seq_len(ids: Seq<ImgData>, off: int)
    ensures
        owh_seq_bytes(ids, off).len() == 8 * ids.len(),
    decreases ids.len(),
{
    if ids.len() > 0 {
        lemma_owh_seq_len(ids.drop_first(), off + img_pay_len(ids[0]));
    }
}

/// A still image at a position; the background is one of these at the
/// origin.
#[derive(Clone, PartialEq, Debug)]
pub struct Image {
    pub x: u16,
    pub y: u16,
    pub img_data: ImgData,
}

/// The serialized body of an image element whose payload starts at `off`.
pub open spec fn image_bytes(v: Image, off: int) -> Seq<u8> {
    u16_le_bytes(v.x) + u16_le_bytes(v.y) + owh_bytes(off, v.img_data)
}

/// The parse conditions of an image element body at `o`.
pub open spec fn image_parse_ok(file: Seq<u8>, o: int) -> bool {
    owh_ok(file, o + 4)
}

/// `v` holds exactly the image element fields stored at `o`.
pub open spec fn is_image_parse(file: Seq<u8>, o: int, v: Image) -> bool {
    v.x == le16_at(file, o) && v.y == le16_at(file, o + 2) && is_owh_parse(
        file,
        o + 4,
        v.img_data,
    )
}

impl Image {
    /// Read the body stored at `offset`, loading the image from the blob.
    pub fn from_bin(file_data: &[u8], offset: usize) -> (r: Result<Image, FaceError>)
        ensures
            match r {
                Ok(v) => image_parse_ok(file_data@, offset as int) && is_image_parse(
                    file_data@,
                    offset as int,
                    v,
                ) && v.img_data.wf(),
                Err(_) => !image_parse_ok(file_data@, offset as int),
            },
    {
        let n = file_data.len();
        if n < 12 || offset > n - 12 {
            return Err(FaceError::Truncated);
        }
        let img_data = match ImgData::from_owh(file_data, offset + 4) {
            Ok(id) => id,
            Err(e) => {
                return Err(e);
            },
        };
        Ok(Image { x: get_u16(file_data, offset), y: get_u16(file_data, offset + 2), img_data })
    }

    /// Emit the body, writing the image payload into the blob and advancing
    /// the running offset.
    pub fn to_bin(&self, blob_data: &mut Vec<u8>, blob_offset: &mut u32) -> (r: Result<
        Vec<u8>,
        FaceError,
    >)
        ensures
            match r {
                Ok(h) => h@ == image_bytes(*self, *old(blob_offset) as int) && h@.len() == 12
                    && final(blob_data)@ == old(blob_data)@ + img_pay(self.img_data) && *final(blob_offset) == *old(blob_offset) + img_pay_len(self.img_data),
                Err(e) => e == FaceError::OffsetTooLarge && *old(blob_offset) + img_pay(self.img_data).len() > u32::MAX,
            },
    {
        let mut h: Vec<u8> = Vec::new();
        push_u16(&mut h, self.x);
        push_u16(&mut h, self.y);
        if let Err(e) = write_img_one(&self.img_data, &mut h, blob_data, blob_offset) {
            return Err(e);
        }
        proof {
            assert(h@ =~= image_bytes(*self, *old(blob_offset) as int));
        }
        Ok(h)
    }
}

/// The seven-glyph day-of-week display.
#[derive(Clone, PartialEq, Debug)]
pub struct DayName {
    pub n_type: u8,
    pub x: u16,
    pub y: u16,
    pub img_data: Vec<ImgData>,
}

/// The serialized body of a day-name element.
pub open spec fn day_name_bytes(v: DayName, off: int) -> Seq<u8> {
    seq![v.n_type] + u16_le_bytes(v.x) + u16_le_bytes(v.y) + owh_seq_bytes(v.img_data@, off)
}

/// The parse conditions of a day-name body at `o`.
pub open spec fn day_name_parse_ok(file: Seq<u8>, o: int) -> bool {
    o + 61 <= file.len() && (forall|i: int| 0 <= i < 7 ==> #[trigger] owh_slot_ok(file, o + 5, i))
}

/// `v` holds exactly the day-name fields stored at `o`.
pub open spec fn is_day_name_parse(file: Seq<u8>, o: int, v: DayName) -> bool {
    v.n_type == file[o] && v.x == le16_at(file, o + 1) && v.y == le16_at(file, o + 3)
        && v.img_data@.len() == 7 && (forall|i: int|
        0 <= i < 7 ==> #[trigger] owh_slot_parse(file, o + 5, i, v.img_data@[i]))
}

impl DayName {
    pub open spec fn wf(self) -> bool {
        self.img_data@.len() == 7
    }

    /// Read the body stored at `offset`, loading the seven glyph images.
    pub fn from_bin(file_data: &[u8], offset: usize) -> (r: Result<DayName, FaceError>)
        ensures
            match r {
                Ok(v) => day_name_parse_ok(file_data@, offset as int) && is_day_name_parse(
                    file_data@,
                    offset as int,
                    v,
                ) && v.wf() && (forall|i: int| 0 <= i < 7 ==> v.img_data@[i].wf()),
                Err(_) => !day_name_parse_ok(file_data@, offset as int),
            },
    {
        let n = file_data.len();
        if n < 61 || offset > n - 61 {
            return Err(FaceError::Truncated);
        }
        let mut img_data: Vec<ImgData> = Vec::new();
        let mut i: usize = 0;
        while i < 7
            invariant
                i <= 7,
                n == file_data@.len(),
                offset + 61 <= n,
                img_data@.len() == i,
                forall|j: int| 0 <= j < i ==> #[trigger] owh_slot_ok(file_data@, offset + 5, j),
                forall|j: int|
                    0 <= j < i ==> owh_slot_parse(
                        file_data@,
                        offset + 5,
                        j,
                        #[trigger] img_data@[j],
                    ) && img_data@[j].wf(),
            decreases 7 - i,
        {
            let id = match ImgData::from_owh(file_data, offset + 5 + 8 * i) {
                Ok(id) => id,
                Err(e) => {
                    proof {
                        assert(!owh_slot_ok(file_data@, offset + 5, i as int));
                    }
                    return Err(e);
                },
            };
            img_data.push(id);
            i = i + 1;
        }
        Ok(
            DayName {
                n_type: file_data[offset],
                x: get_u16(file_data, offset + 1),
                y: get_u16(file_data, offset + 3),
                img_data,
            },
        )
    }

    /// Emit the body, writing the seven glyph payloads into the blob.
    pub fn to_bin(&self, blob_data: &mut Vec<u8>, blob_offset: &mut u32) -> (r: Result<
        Vec<u8>,
        FaceError,
    >)
        ensures
            match r {
                Ok(h) => h@ == day_name_bytes(*self, *old(blob_offset) as int) && (self.wf()
                    ==> h@.len() == 61) && final(blob_data)@ == old(blob_data)@ + pay_seq_bytes(
                    self.img_data@,
                ) && *final(blob_offset) == *old(blob_offset) + pay_seq_bytes(self.img_data@).len(),
                Err(e) => e == FaceError::OffsetTooLarge && *old(blob_offset) + pay_seq_bytes(self.img_data@).len() > u32::MAX,
            },
    {
        let mut h: Vec<u8> = Vec::new();
        h.push(self.n_type);
        push_u16(&mut h, self.x);
        push_u16(&mut h, self.y);
        if let Err(e) = write_img_seq(&self.img_data, &mut h, blob_data, blob_offset) {
            return Err(e);
        }
        proof {
            assert(h@ =~= day_name_bytes(*self, *old(blob_offset) as int));
            lemma_owh_seq_len(self.img_data@, *old(blob_offset) as int);
        }
        Ok(h)
    }
}

/// The battery gauge: a background image with a fill region, and two more
/// images.
#[derive(Clone, PartialEq, Debug)]
pub struct BatteryFill {
    pub x: u16,
    pub y: u16,
    pub img_data: ImgData,
    pub x1: u8,
    pub y1: u8,
    pub x2: u8,
    pub y2: u8,
    pub unknown0: u32,
    pub unknown1: u32,
    pub image_data1: ImgData,
    pub image_data2: ImgData,
}

/// The serialized body of a battery gauge.
pub open spec fn battery_bytes(v: BatteryFill, off: int) -> Seq<u8> {
    u16_le_bytes(v.x) + u16_le_bytes(v.y) + owh_bytes(off, v.img_data) + seq![
        v.x1,
        v.y1,
        v.x2,
        v.y2,
    ] + u32_le_bytes(v.unknown0) + u32_le_bytes(v.unknown1) + owh_bytes(
        off + img_pay_len(v.img_data),
        v.image_data1,
    ) + owh_bytes(
        off + img_pay_len(v.img_data) + img_pay_len(v.image_data1),
        v.image_data2,
    )
}

/// The parse conditions of a battery gauge body at `o`.
pub open spec fn battery_parse_ok(file: Seq<u8>, o: int) -> bool {
    o + 40 <= file.len() && owh_ok(file, o + 4) && owh_ok(file, o + 24) && owh_ok(file, o + 32)
}

/// `v` holds exactly the battery gauge fields stored at `o`.
pub open spec fn is_battery_parse(file: Seq<u8>, o: int, v: BatteryFill) -> bool {
    v.x == le16_at(file, o) && v.y == le16_at(file, o + 2) && is_owh_parse(file, o + 4, v.img_data)
        && v.x1 == file[o + 12] && v.y1 == file[o + 13] && v.x2 == file[o + 14] && v.y2 == file[o
        + 15] && v.unknown0 == crate::util::le32_at(file, o + 16) && v.unknown1
        == crate::util::le32_at(file, o + 20) && is_owh_parse(file, o + 24, v.image_data1)
        && is_owh_parse(file, o + 32, v.image_data2)
}

impl BatteryFill {
    /// Read the body stored at `offset`, loading the three images.
    pub fn from_bin(file_data: &[u8], offset: usize) -> (r: Result<BatteryFill, FaceError>)
        ensures
            match r {
                Ok(v) => battery_parse_ok(file_data@, offset as int) && is_battery_parse(
                    file_data@,
                    offset as int,
                    v,
                ) && v.img_data.wf() && v.image_data1.wf() && v.image_data2.wf(),
                Err(_) => !battery_parse_ok(file_data@, offset as int),
            },
    {
        let n = file_data.len();
        if n < 40 || offset > n - 40 {
            return Err(FaceError::Truncated);
        }
        let img_data = match ImgData::from_owh(file_data, offset + 4) {
            Ok(id) => id,
            Err(e) => {
                return Err(e);
            },
        };
        let image_data1 = match ImgData::from_owh(file_data, offset + 24) {
            Ok(id) => id,
            Err(e) => {
                return Err(e);
            },
        };
        let image_data2 = match ImgData::from_owh(file_data, offset + 32) {
            Ok(id) => id,
            Err(e) => {
                return Err(e);
            },
        };
        Ok(
            BatteryFill {
                x: get_u16(file_data, offset),
                y: get_u16(file_data, offset + 2),
                img_data,
                x1: file_data[offset + 12],
                y1: file_data[offset + 13],
                x2: file_data[offset + 14],
                y2: file_data[offset + 15],
                unknown0: crate::util::get_u32(file_data, offset + 16),
                unknown1: crate::util::get_u32(file_data, offset + 20),
                image_data1,
                image_data2,
            },
        )
    }

    /// Emit the body, writing the three image payloads into the blob in
    /// order.
    pub fn to_bin(&self, blob_data: &mut Vec<u8>, blob_offset: &mut u32) -> (r: Result<
        Vec<u8>,
        FaceError,
    >)
        ensures
            match r {
                Ok(h) => h@ == battery_bytes(*self, *old(blob_offset) as int) && h@.len() == 40
                    && final(blob_data)@ == old(blob_data)@ + img_pay(self.img_data) + img_pay(
                    self.image_data1,
                ) + img_pay(self.image_data2) && *final(blob_offset) == *old(blob_offset)
                    + img_pay_len(self.img_data) + img_pay_len(self.image_data1) + img_pay_len(
                    self.image_data2,
                ),
                Err(e) => e == FaceError::OffsetTooLarge && *old(blob_offset) + img_pay(self.img_data).len() + img_pay(self.image_data1).len() + img_pay(self.image_data2).len() > u32::MAX,
            },
    {
        let mut h: Vec<u8> = Vec::new();
        push_u16(&mut h, self.x);
        push_u16(&mut h, self.y);
        if let Err(e) = write_img_one(&self.img_data, &mut h, blob_data, blob_offset) {
            return Err(e);
        }
        h.push(self.x1);
        h.push(self.y1);
        h.push(self.x2);
        h.push(self.y2);
        push_u32(&mut h, self.unknown0);
        push_u32(&mut h, self.unknown1);
        if let Err(e) = write_img_one(&self.image_data1, &mut h, blob_data, blob_offset) {
            return Err(e);
        }
        if let Err(e) = write_img_one(&self.image_data2, &mut h, blob_data, blob_offset) {
            return Err(e);
        }
        proof {
            assert(h@ =~= battery_bytes(*self, *old(blob_offset) as int));
        }
        Ok(h)
    }
}

/// A clock hand: which hand it is, its pivot, its image, and its position.
#[derive(Clone, PartialEq, Debug)]
pub struct TimeHand {
    pub h_type: u8,
    pub unknown_x: u16,
    pub unknown_y: u16,
    pub img_data: ImgData,
    pub x: u16,
    pub y: u16,
}

/// The serialized body of a clock hand.
pub open spec fn time_hand_bytes(v: TimeHand, off: int) -> Seq<u8> {
    seq![v.h_type] + u16_le_bytes(v.unknown_x) + u16_le_bytes(v.unknown_y) + owh_bytes(
        off,
        v.img_data,
    ) + u16_le_bytes(v.x) + u16_le_bytes(v.y)
}

/// The parse conditions of a clock hand body at `o`.
pub open spec fn time_hand_parse_ok(file: Seq<u8>, o: int) -> bool {
    o + 17 <= file.len() && owh_ok(file, o + 5)
}

/// `v` holds exactly the clock hand fields stored at `o`.
pub open spec fn is_time_hand_parse(file: Seq<u8>, o: int, v: TimeHand) -> bool {
    v.h_type == file[o] && v.unknown_x == le16_at(file, o + 1) && v.unknown_y == le16_at(
        file,
        o + 3,
    ) && is_owh_parse(file, o + 5, v.img_data) && v.x == le16_at(file, o + 13) && v.y == le16_at(
        file,
        o + 15,
    )
}

impl TimeHand {
    /// Read the body stored at `offset`, loading the hand image.
    pub fn from_bin(file_data: &[u8], offset: usize) -> (r: Result<TimeHand, FaceError>)
        ensures
            match r {
                Ok(v) => time_hand_parse_ok(file_data@, offset as int) && is_time_hand_parse(
                    file_data@,
                    offset as int,
                    v,
                ) && v.img_data.wf(),
                Err(_) => !time_hand_parse_ok(file_data@, offset as int),
            },
    {
        let n = file_data.len();
        if n < 17 || offset > n - 17 {
            return Err(FaceError::Truncated);
        }
        let img_data = match ImgData::from_owh(file_data, offset + 5) {
            Ok(id) => id,
            Err(e) => {
                return Err(e);
            },
        };
        Ok(
            TimeHand {
                h_type: file_data[offset],
                unknown_x: get_u16(file_data, offset + 1),
                unknown_y: get_u16(file_data, offset + 3),
                img_data,
                x: get_u16(file_data, offset + 13),
                y: get_u16(file_data, offset + 15),
            },
        )
    }

    /// Emit the body, writing the hand image payload into the blob.
    pub fn to_bin(&self, blob_data: &mut Vec<u8>, blob_offset: &mut u32) -> (r: Result<
        Vec<u8>,
        FaceError,
    >)
        ensures
            match r {
                Ok(h) => h@ == time_hand_bytes(*self, *old(blob_offset) as int) && h@.len() == 17
                    && final(blob_data)@ == old(blob_data)@ + img_pay(self.img_data) && *final(blob_offset) == *old(blob_offset) + img_pay_len(self.img_data),
                Err(e) => e == FaceError::OffsetTooLarge && *old(blob_offset) + img_pay(self.img_data).len() > u32::MAX,
            },
    {
        let mut h: Vec<u8> = Vec::new();
        h.push(self.h_type);
        push_u16(&mut h, self.unknown_x);
        push_u16(&mut h, self.unknown_y);
        if let Err(e) = write_img_one(&self.img_data, &mut h, blob_data, blob_offset) {
            return Err(e);
        }
        push_u16(&mut h, self.x);
        push_u16(&mut h, self.y);
        proof {
            assert(h@ =~= time_hand_bytes(*self, *old(blob_offset) as int));
        }
        Ok(h)
    }
}

/// A gauge drawn as a row of images, as many as its count byte declares.
#[derive(Clone, PartialEq, Debug)]
pub struct BarDisplay {
    pub b_type: u8,
    pub count: u8,
    pub x: u16,
    pub y: u16,
    pub img_data: Vec<ImgData>,
}

/// The serialized body of a bar display.
pub open spec fn bar_bytes(v: BarDisplay, off: int) -> Seq<u8> {
    seq![v.b_type, v.count] + u16_le_bytes(v.x) + u16_le_bytes(v.y) + owh_seq_bytes(
        v.img_data@,
        off,
    )
}

/// The parse conditions of a bar display body at `o`.
pub open spec fn bar_parse_ok(file: Seq<u8>, o: int) -> bool {
    o + 6 <= file.len() && (forall|i: int|
        0 <= i < file[o + 1] ==> #[trigger] owh_slot_ok(file, o + 6, i))
}

/// `v` holds exactly the bar display fields stored at `o`.
pub open spec fn is_bar_parse(file: Seq<u8>, o: int, v: BarDisplay) -> bool {
    v.b_type == file[o] && v.count == file[o + 1] && v.x == le16_at(file, o + 2) && v.y == le16_at(
        file,
        o + 4,
    ) && v.img_data@.len() == v.count && (forall|i: int|
        0 <= i < v.count ==> #[trigger] owh_slot_parse(file, o + 6, i, v.img_data@[i]))
}

impl BarDisplay {
    pub open spec fn wf(self) -> bool {
        self.img_data@.len() == self.count
    }

    /// Read the body stored at `offset`, loading its count's worth of
    /// images.
    pub fn from_bin(file_data: &[u8], offset: usize) -> (r: Result<BarDisplay, FaceError>)
        ensures
            match r {
                Ok(v) => bar_parse_ok(file_data@, offset as int) && is_bar_parse(
                    file_data@,
                    offset as int,
                    v,
                ) && v.wf() && (forall|i: int| 0 <= i < v.count ==> v.img_data@[i].wf()),
                Err(_) => !bar_parse_ok(file_data@, offset as int),
            },
    {
        let n = file_data.len();
        if n < 6 || offset > n - 6 {
            return Err(FaceError::Truncated);
        }
        let count = file_data[offset + 1];
        let c = count as usize;
        let mut img_data: Vec<ImgData> = Vec::new();
        let mut i: usize = 0;
        while i < c
            invariant
                i <= c,
                c == count,
                n == file_data@.len(),
                offset + 6 <= n,
                count == file_data@[offset + 1],
                img_data@.len() == i,
                forall|j: int| 0 <= j < i ==> #[trigger] owh_slot_ok(file_data@, offset + 6, j),
                forall|j: int|
                    0 <= j < i ==> owh_slot_parse(
                        file_data@,
                        offset + 6,
                        j,
                        #[trigger] img_data@[j],
                    ) && img_data@[j].wf(),
            decreases c - i,
        {
            if n - offset < 6 + 8 * i + 8 {
                proof {
                    assert(!owh_slot_ok(file_data@, offset + 6, i as int));
                }
                return Err(FaceError::Truncated);
            }
            let id = match ImgData::from_owh(file_data, offset + 6 + 8 * i) {
                Ok(id) => id,
                Err(e) => {
                    proof {
                        assert(!owh_slot_ok(file_data@, offset + 6, i as int));
                    }
                    return Err(e);
                },
            };
            img_data.push(id);
            i = i + 1;
        }
        Ok(
            BarDisplay {
                b_type: file_data[offset],
                count,
                x: get_u16(file_data, offset + 2),
                y: get_u16(file_data, offset + 4),
                img_data,
            },
        )
    }

    /// On-disk size of this element, prefix included: its count decides it.
    pub fn bin_size(&self) -> (r: usize)
        ensures
            r == 8 + 8 * (self.count as int),
    {
        8 + (self.count as usize) * 8
    }

    /// Emit the body, writing each image payload into the blob in order.
    pub fn to_bin(&self, blob_data: &mut Vec<u8>, blob_offset: &mut u32) -> (r: Result<
        Vec<u8>,
        FaceError,
    >)
        ensures
            match r {
                Ok(h) => h@ == bar_bytes(*self, *old(blob_offset) as int) && (self.wf()
                    ==> h@.len() == 6 + 8 * (self.count as int)) && final(blob_data)@ == old(blob_data)@ + pay_seq_bytes(self.img_data@) && *final(blob_offset) == *old(blob_offset)
                    + pay_seq_bytes(self.img_data@).len(),
                Err(e) => e == FaceError::OffsetTooLarge && *old(blob_offset) + pay_seq_bytes(self.img_data@).len() > u32::MAX,
            },
    {
        let mut h: Vec<u8> = Vec::new();
        h.push(self.b_type);
        h.push(self.count);
        push_u16(&mut h, self.x);
        push_u16(&mut h, self.y);
        if let Err(e) = write_img_seq(&self.img_data, &mut h, blob_data, blob_offset) {
            return Err(e);
        }
        proof {
            assert(h@ =~= bar_bytes(*self, *old(blob_offset) as int));
            lemma_owh_seq_len(self.img_data@, *old(blob_offset) as int);
        }
        Ok(h)
    }
}

/// The weather icon set, as many icons as its count byte declares.
#[derive(Clone, PartialEq, Debug)]
pub struct Weather {
    pub count: u8,
    pub x: u16,
    pub y: u16,
    pub img_data: Vec<ImgData>,
}

/// The serialized body of a weather icon set.
pub open spec fn weather_bytes(v: Weather, off: int) -> Seq<u8> {
    seq![v.count] + u16_le_bytes(v.x) + u16_le_bytes(v.y) + owh_seq_bytes(v.img_data@, off)
}

/// The parse conditions of a weather body at `o`.
pub open spec fn weather_parse_ok(file: Seq<u8>, o: int) -> bool {
    o + 5 <= file.len() && (forall|i: int|
        0 <= i < file[o] ==> #[trigger] owh_slot_ok(file, o + 5, i))
}

/// `v` holds exactly the weather fields stored at `o`.
pub open spec fn is_weather_parse(file: Seq<u8>, o: int, v: Weather) -> bool {
    v.count == file[o] && v.x == le16_at(file, o + 1) && v.y == le16_at(file, o + 3)
        && v.img_data@.len() == v.count && (forall|i: int|
        0 <= i < v.count ==> #[trigger] owh_slot_parse(file, o + 5, i, v.img_data@[i]))
}

impl Weather {
    pub open spec fn wf(self) -> bool {
        self.img_data@.len() == self.count
    }

    /// Read the body stored at `offset`, loading its count's worth of
    /// icons.
    pub fn from_bin(file_data: &[u8], offset: usize) -> (r: Result<Weather, FaceError>)
        ensures
            match r {
                Ok(v) => weather_parse_ok(file_data@, offset as int) && is_weather_parse(
                    file_data@,
                    offset as int,
                    v,
                ) && v.wf() && (forall|i: int| 0 <= i < v.count ==> v.img_data@[i].wf()),
                Err(_) => !weather_parse_ok(file_data@, offset as int),
            },
    {
        let n = file_data.len();
        if n < 5 || offset > n - 5 {
            return Err(FaceError::Truncated);
        }
        let count = file_data[offset];
        let c = count as usize;
        let mut img_data: Vec<ImgData> = Vec::new();
        let mut i: usize = 0;
        while i < c
            invariant
                i <= c,
                c == count,
                n == file_data@.len(),
                offset + 5 <= n,
                count == file_data@[offset as int],
                img_data@.len() == i,
                forall|j: int| 0 <= j < i ==> #[trigger] owh_slot_ok(file_data@, offset + 5, j),
                forall|j: int|
                    0 <= j < i ==> owh_slot_parse(
                        file_data@,
                        offset + 5,
                        j,
                        #[trigger] img_data@[j],
                    ) && img_data@[j].wf(),
            decreases c - i,
        {
            if n - offset < 5 + 8 * i + 8 {
                proof {
                    assert(!owh_slot_ok(file_data@, offset + 5, i as int));
                }
                return Err(FaceError::Truncated);
            }
            let id = match ImgData::from_owh(file_data, offset + 5 + 8 * i) {
                Ok(id) => id,
                Err(e) => {
                    proof {
                        assert(!owh_slot_ok(file_data@, offset + 5, i as int));
                    }
                    return Err(e);
                },
            };
            img_data.push(id);
            i = i + 1;
        }
        Ok(
            Weather {
                count,
                x: get_u16(file_data, offset + 1),
                y: get_u16(file_data, offset + 3),
                img_data,
            },
        )
    }

    /// On-disk size of this element, prefix included: its count decides it.
    pub fn bin_size(&self) -> (r: usize)
        ensures
            r == 7 + 8 * (self.count as int),
    {
        7 + (self.count as usize) * 8
    }

    /// Emit the body, writing each icon payload into the blob in order.
    pub fn to_bin(&self, blob_data: &mut Vec<u8>, blob_offset: &mut u32) -> (r: Result<
        Vec<u8>,
        FaceError,
    >)
        ensures
            match r {
                Ok(h) => h@ == weather_bytes(*self, *old(blob_offset) as int) && (self.wf()
                    ==> h@.len() == 5 + 8 * (self.count as int)) && final(blob_data)@ == old(blob_data)@ + pay_seq_bytes(self.img_data@) && *final(blob_offset) == *old(blob_offset)
                    + pay_seq_bytes(self.img_data@).len(),
                Err(e) => e == FaceError::OffsetTooLarge && *old(blob_offset) + pay_seq_bytes(self.img_data@).len() > u32::MAX,
            },
    {
        let mut h: Vec<u8> = Vec::new();
        h.push(self.count);
        push_u16(&mut h, self.x);
        push_u16(&mut h, self.y);
        if let Err(e) = write_img_seq(&self.img_data, &mut h, blob_data, blob_offset) {
            return Err(e);
        }
        proof {
            assert(h@ =~= weather_bytes(*self, *old(blob_offset) as int));
            lemma_owh_seq_len(self.img_data@, *old(blob_offset) as int);
        }
        Ok(h)
    }
}

/// The dash glyph between day and month, one image.
#[derive(Clone, PartialEq, Debug)]
pub struct Dash {
    pub img_data: ImgData,
}

/// The serialized body of a dash element.
pub open spec fn dash_bytes(v: Dash, off: int) -> Seq<u8> {
    owh_bytes(off, v.img_data)
}

/// The parse conditions of a dash body at `o`.
pub open spec fn dash_parse_ok(file: Seq<u8>, o: int) -> bool {
    owh_ok(file, o)
}

/// `v` holds exactly the dash fields stored at `o`.
pub open spec fn is_dash_parse(file: Seq<u8>, o: int, v: Dash) -> bool {
    is_owh_parse(file, o, v.img_data)
}

impl Dash {
    /// Read the body stored at `offset`, loading the glyph image.
    pub fn from_bin(file_data: &[u8], offset: usize) -> (r: Result<Dash, FaceError>)
        ensures
            match r {
                Ok(v) => dash_parse_ok(file_data@, offset as int) && is_dash_parse(
                    file_data@,
                    offset as int,
                    v,
                ) && v.img_data.wf(),
                Err(_) => !dash_parse_ok(file_data@, offset as int),
            },
    {
        let img_data = match ImgData::from_owh(file_data, offset) {
            Ok(id) => id,
            Err(e) => {
                return Err(e);
            },
        };
        Ok(Dash { img_data })
    }

    /// Emit the body, writing the glyph payload into the blob.
    pub fn to_bin(&self, blob_data: &mut Vec<u8>, blob_offset: &mut u32) -> (r: Result<
        Vec<u8>,
        FaceError,
    >)
        ensures
            match r {
                Ok(h) => h@ == dash_bytes(*self, *old(blob_offset) as int) && h@.len() == 8
                    && final(blob_data)@ == old(blob_data)@ + img_pay(self.img_data) && *final(blob_offset) == *old(blob_offset) + img_pay_len(self.img_data),
                Err(e) => e == FaceError::OffsetTooLarge && *old(blob_offset) + img_pay(self.img_data).len() > u32::MAX,
            },
    {
        let mut h: Vec<u8> = Vec::new();
        if let Err(e) = write_img_one(&self.img_data, &mut h, blob_data, blob_offset) {
            return Err(e);
        }
        proof {
            assert(Seq::<u8>::empty() + owh_bytes(*old(blob_offset) as int, self.img_data)
                =~= owh_bytes(*old(blob_offset) as int, self.img_data));
        }
        Ok(h)
    }
}

// ---------------------------------------------------------------------------
// The tagged element type
// ---------------------------------------------------------------------------

/// One on-screen widget record, tagged by its on-disk type code.  `Unknown`
/// stands for a type code with no known layout; the container treats it as
/// fatal, since records are not self-describing and cannot be skipped.
#[derive(Clone, PartialEq, Debug)]
pub enum Element {
    Image(Image),
    TimeNum(TimeNum),
    DayName(DayName),
    TimeHand(TimeHand),
    DayNum(DayNum),
    BatteryFill(BatteryFill),
    HeartRateNum(HeartRateNum),
    StepsNum(StepsNum),
    KCalNum(KCalNum),
    MonthNum(MonthNum),
    BarDisplay(BarDisplay),
    Weather(Weather),
    Unknown29(Unknown29),
    Dash(Dash),
    Unknown,
}

/// The on-disk type code of each element kind.
pub open spec fn e_type_spec(e: Element) -> u8 {
    match e {
        Element::Image(_) => 0,
        Element::TimeNum(_) => 2,
        Element::DayName(_) => 4,
        Element::BatteryFill(_) => 5,
        Element::HeartRateNum(_) => 6,
        Element::StepsNum(_) => 7,
        Element::KCalNum(_) => 9,
        Element::TimeHand(_) => 10,
        Element::DayNum(_) => 13,
        Element::MonthNum(_) => 15,
        Element::BarDisplay(_) => 18,
        Element::Weather(_) => 27,
        Element::Unknown29(_) => 29,
        Element::Dash(_) => 35,
        Element::Unknown => 255,
    }
}

/// The on-disk size of each element kind, the two prefix bytes included.
pub open spec fn bin_size_spec(e: Element) -> int {
    match e {
        Element::Image(_) => 14,
        Element::TimeNum(_) => 34,
        Element::DayName(_) => 63,
        Element::BatteryFill(_) => 42,
        Element::HeartRateNum(_) => 26,
        Element::StepsNum(_) => 26,
        Element::KCalNum(_) => 19,
        Element::TimeHand(_) => 19,
        Element::DayNum(_) => 12,
        Element::MonthNum(_) => 12,
        Element::BarDisplay(v) => 8 + 8 * (v.count as int),
        Element::Weather(v) => 7 + 8 * (v.count as int),
        Element::Unknown29(_) => 3,
        Element::Dash(_) => 10,
        Element::Unknown => 0,
    }
}

/// Every field vector of the element has its declared length.
pub open spec fn elem_wf(e: Element) -> bool {
    match e {
        Element::TimeNum(v) => v.wf(),
        Element::DayName(v) => v.wf(),
        Element::HeartRateNum(v) => v.wf(),
        Element::StepsNum(v) => v.wf(),
        Element::KCalNum(v) => v.wf(),
        Element::DayNum(v) => v.wf(),
        Element::MonthNum(v) => v.wf(),
        Element::BarDisplay(v) => v.wf(),
        Element::Weather(v) => v.wf(),
        Element::Unknown => false,
        _ => true,
    }
}

/// The serialized element: the flag byte, the type code, then the body,
/// with image payloads at `off` and after.
pub open spec fn elem_bytes(e: Element, off: int) -> Seq<u8> {
    seq![1u8, e_type_spec(e)] + match e {
        Element::Image(v) => image_bytes(v, off),
        Element::TimeNum(v) => time_num_bytes(v),
        Element::DayName(v) => day_name_bytes(v, off),
        Element::BatteryFill(v) => battery_bytes(v, off),
        Element::HeartRateNum(v) => num_body_bytes(v.digit_set, v.align, v.x, v.y, v.unknown@),
        Element::StepsNum(v) => num_body_bytes(v.digit_set, v.align, v.x, v.y, v.unknown@),
        Element::KCalNum(v) => num_body_bytes(v.digit_set, v.align, v.x, v.y, v.unknown@),
        Element::TimeHand(v) => time_hand_bytes(v, off),
        Element::DayNum(v) => two_digit_bytes(v.digit_set, v.align, v.xys@),
        Element::MonthNum(v) => two_digit_bytes(v.digit_set, v.align, v.xys@),
        Element::BarDisplay(v) => bar_bytes(v, off),
        Element::Weather(v) => weather_bytes(v, off),
        Element::Unknown29(v) => seq![v.unknown],
        Element::Dash(v) => dash_bytes(v, off),
        Element::Unknown => Seq::empty(),
    }
}

/// The bytes the element adds to the blob region: its image payloads in
/// order.
pub open spec fn elem_pay(e: Element) -> Seq<u8> {
    match e {
        Element::Image(v) => img_pay(v.img_data),
        Element::DayName(v) => pay_seq_bytes(v.img_data@),
        Element::BatteryFill(v) => img_pay(v.img_data) + img_pay(v.image_data1) + img_pay(
            v.image_data2,
        ),
        Element::TimeHand(v) => img_pay(v.img_data),
        Element::BarDisplay(v) => pay_seq_bytes(v.img_data@),
        Element::Weather(v) => pay_seq_bytes(v.img_data@),
        Element::Dash(v) => img_pay(v.img_data),
        _ => Seq::empty(),
    }
}

/// The parse conditions of the element record at `base`: the type byte must
/// be readable and the body of the kind it names must parse.  A type code
/// with no known layout "parses" to `Unknown`; the container rejects it.
pub open spec fn elem_parse_ok(file: Seq<u8>, base: int) -> bool {
    base + 2 <= file.len() && {
        let t = file[base + 1];
        let o = base + 2;
        if t == 0 {
            image_parse_ok(file, o)
        } else if t == 2 {
            o + 32 <= file.len()
        } else if t == 4 {
            day_name_parse_ok(file, o)
        } else if t == 5 {
            battery_parse_ok(file, o)
        } else if t == 6 || t == 7 {
            o + 24 <= file.len()
        } else if t == 9 {
            o + 17 <= file.len()
        } else if t == 10 {
            time_hand_parse_ok(file, o)
        } else if t == 13 || t == 15 {
            o + 10 <= file.len()
        } else if t == 18 {
            bar_parse_ok(file, o)
        } else if t == 27 {
            weather_parse_ok(file, o)
        } else if t == 29 {
            o + 1 <= file.len()
        } else if t == 35 {
            dash_parse_ok(file, o)
        } else {
            true
        }
    }
}

/// `e` holds exactly the element record stored at `base`.
pub open spec fn is_elem_parse(file: Seq<u8>, base: int, e: Element) -> bool {
    base + 2 <= file.len() && {
        let t = file[base + 1];
        let o = base + 2;
        if t == 0 {
            e matches Element::Image(v) && is_image_parse(file, o, v)
        } else if t == 2 {
            e matches Element::TimeNum(v) && is_time_num_parse(file, o, v)
        } else if t == 4 {
            e matches Element::DayName(v) && is_day_name_parse(file, o, v)
        } else if t == 5 {
            e matches Element::BatteryFill(v) && is_battery_parse(file, o, v)
        } else if t == 6 {
            e matches Element::HeartRateNum(v) && is_num_body_parse(file, o, 18, v.digit_set,
                v.align, v.x, v.y, v.unknown@)
        } else if t == 7 {
            e matches Element::StepsNum(v) && is_num_body_parse(file, o, 18, v.digit_set, v.align,
                v.x, v.y, v.unknown@)
        } else if t == 9 {
            e matches Element::KCalNum(v) && is_num_body_parse(file, o, 11, v.digit_set, v.align,
                v.x, v.y, v.unknown@)
        } else if t == 10 {
            e matches Element::TimeHand(v) && is_time_hand_parse(file, o, v)
        } else if t == 13 {
            e matches Element::DayNum(v) && is_two_digit_parse(file, o, v.digit_set, v.align,
                v.xys@)
        } else if t == 15 {
            e matches Element::MonthNum(v) && is_two_digit_parse(file, o, v.digit_set, v.align,
                v.xys@)
        } else if t == 18 {
            e matches Element::BarDisplay(v) && is_bar_parse(file, o, v)
        } else if t == 27 {
            e matches Element::Weather(v) && is_weather_parse(file, o, v)
        } else if t == 29 {
            e matches Element::Unknown29(v) && v.unknown == file[o]
        } else if t == 35 {
            e matches Element::Dash(v) && is_dash_parse(file, o, v)
        } else {
            e == Element::Unknown
        }
    }
}

impl Element {
    /// Read the element record at `base_offset`: the flag and type bytes,
    /// then the body the type code selects.
    pub fn from_bin(file_data: &[u8], base_offset: usize) -> (r: Result<Element, FaceError>)
        ensures
            match r {
                Ok(e) => elem_parse_ok(file_data@, base_offset as int) && is_elem_parse(
                    file_data@,
                    base_offset as int,
                    e,
                ),
                Err(_) => !elem_parse_ok(file_data@, base_offset as int),
            },
    {
        let n = file_data.len();
        if n < 2 || base_offset > n - 2 {
            return Err(FaceError::Truncated);
        }
        let e_type = file_data[base_offset + 1];
        let offset = base_offset + 2;
        match e_type {
            0 => match Image::from_bin(file_data, offset) {
                Ok(v) => Ok(Element::Image(v)),
                Err(e) => Err(e),
            },
            2 => match TimeNum::from_bin(file_data, offset) {
                Ok(v) => Ok(Element::TimeNum(v)),
                Err(e) => Err(e),
            },
            4 => match DayName::from_bin(file_data, offset) {
                Ok(v) => Ok(Element::DayName(v)),
                Err(e) => Err(e),
            },
            5 => match BatteryFill::from_bin(file_data, offset) {
                Ok(v) => Ok(Element::BatteryFill(v)),
                Err(e) => Err(e),
            },
            6 => match HeartRateNum::from_bin(file_data, offset) {
                Ok(v) => Ok(Element::HeartRateNum(v)),
                Err(e) => Err(e),
            },
            7 => match StepsNum::from_bin(file_data, offset) {
                Ok(v) => Ok(Element::StepsNum(v)),
                Err(e) => Err(e),
            },
            9 => match KCalNum::from_bin(file_data, offset) {
                Ok(v) => Ok(Element::KCalNum(v)),
                Err(e) => Err(e),
            },
            10 => match TimeHand::from_bin(file_data, offset) {
                Ok(v) => Ok(Element::TimeHand(v)),
                Err(e) => Err(e),
            },
            13 => match DayNum::from_bin(file_data, offset) {
                Ok(v) => Ok(Element::DayNum(v)),
                Err(e) => Err(e),
            },
            15 => match MonthNum::from_bin(file_data, offset) {
                Ok(v) => Ok(Element::MonthNum(v)),
                Err(e) => Err(e),
            },
            18 => match BarDisplay::from_bin(file_data, offset) {
                Ok(v) => Ok(Element::BarDisplay(v)),
                Err(e) => Err(e),
            },
            27 => match Weather::from_bin(file_data, offset) {
                Ok(v) => Ok(Element::Weather(v)),
                Err(e) => Err(e),
            },
            29 => match Unknown29::from_bin(file_data, offset) {
                Ok(v) => Ok(Element::Unknown29(v)),
                Err(e) => Err(e),
            },
            35 => match Dash::from_bin(file_data, offset) {
                Ok(v) => Ok(Element::Dash(v)),
                Err(e) => Err(e),
            },
            _ => Ok(Element::Unknown),
        }
    }

    /// The on-disk size of this element, the flag and type bytes included;
    /// for the two counted kinds it comes from their count byte.
    pub fn bin_size(&self) -> (r: usize)
        requires
            !(self matches Element::Unknown),
        ensures
            r == bin_size_spec(*self),
    {
        match self {
            Element::Image(_) => 14,
            Element::TimeNum(_) => 34,
            Element::DayName(_) => 63,
            Element::BatteryFill(_) => 42,
            Element::HeartRateNum(_) => 26,
            Element::StepsNum(_) => 26,
            Element::KCalNum(_) => 19,
            Element::TimeHand(_) => 19,
            Element::DayNum(_) => 12,
            Element::MonthNum(_) => 12,
            Element::BarDisplay(e) => e.bin_size(),
            Element::Weather(e) => e.bin_size(),
            Element::Unknown29(_) => 3,
            Element::Dash(_) => 10,
            Element::Unknown => 0,
        }
    }

    /// The on-disk type code of this element.
    pub fn e_type(&self) -> (r: u8)
        requires
            !(self matches Element::Unknown),
        ensures
            r == e_type_spec(*self),
    {
        match self {
            Element::Image(_) => 0,
            Element::TimeNum(_) => 2,
            Element::DayName(_) => 4,
            Element::BatteryFill(_) => 5,
            Element::HeartRateNum(_) => 6,
            Element::StepsNum(_) => 7,
            Element::KCalNum(_) => 9,
            Element::TimeHand(_) => 10,
            Element::DayNum(_) => 13,
            Element::MonthNum(_) => 15,
            Element::BarDisplay(_) => 18,
            Element::Weather(_) => 27,
            Element::Unknown29(_) => 29,
            Element::Dash(_) => 35,
            Element::Unknown => 255,
        }
    }

    /// Emit the element: its header bytes are returned, its image payloads
    /// are appended to the blob with the running offset advanced once per
    /// payload, in order.  When the element's field vectors have their
    /// declared lengths, the header is exactly `bin_size` bytes.
    pub fn to_bin(&self, blob_data: &mut Vec<u8>, blob_offset: &mut u32) -> (r: Result<
        Vec<u8>,
        FaceError,
    >)
        requires
            !(self matches Element::Unknown),
        ensures
            match r {
                Ok(h) => h@ == elem_bytes(*self, *old(blob_offset) as int) && final(blob_data)@
                    == old(blob_data)@ + elem_pay(*self) && *final(blob_offset) == *old(
                    blob_offset,
                ) + elem_pay(*self).len() && (elem_wf(*self) ==> h@.len() == bin_size_spec(*self)),
                Err(e) => e == FaceError::OffsetTooLarge && *old(blob_offset) + elem_pay(
                    *self,
                ).len() > u32::MAX,
            },
    {
        let mut h: Vec<u8> = Vec::new();
        h.push(1);
        h.push(self.e_type());
        let body = match self {
            Element::Image(el) => el.to_bin(blob_data, blob_offset),
            Element::TimeNum(el) => Ok(el.to_bin()),
            Element::DayName(el) => el.to_bin(blob_data, blob_offset),
            Element::BatteryFill(el) => el.to_bin(blob_data, blob_offset),
            Element::HeartRateNum(el) => Ok(el.to_bin()),
            Element::StepsNum(el) => Ok(el.to_bin()),
            Element::KCalNum(el) => Ok(el.to_bin()),
            Element::TimeHand(el) => el.to_bin(blob_data, blob_offset),
            Element::DayNum(el) => Ok(el.to_bin()),
            Element::MonthNum(el) => Ok(el.to_bin()),
            Element::BarDisplay(el) => el.to_bin(blob_data, blob_offset),
            Element::Weather(el) => el.to_bin(blob_data, blob_offset),
            Element::Unknown29(el) => Ok(el.to_bin()),
            Element::Dash(el) => el.to_bin(blob_data, blob_offset),
            Element::Unknown => Ok(Vec::new()),
        };
        let body = match body {
            Ok(b) => b,
            Err(e) => {
                proof {
                    match self {
                        Element::Image(v) => {
                            assert(elem_pay(*self) == img_pay(v.img_data));
                        },
                        Element::DayName(v) => {
                            assert(elem_pay(*self) == pay_seq_bytes(v.img_data@));
                        },
                        Element::BatteryFill(v) => {
                            assert(elem_pay(*self) == img_pay(v.img_data) + img_pay(v.image_data1)
                                + img_pay(v.image_data2));
                        },
                        Element::TimeHand(v) => {
                            assert(elem_pay(*self) == img_pay(v.img_data));
                        },
                        Element::BarDisplay(v) => {
                            assert(elem_pay(*self) == pay_seq_bytes(v.img_data@));
                        },
                        Element::Weather(v) => {
                            assert(elem_pay(*self) == pay_seq_bytes(v.img_data@));
                        },
                        Element::Dash(v) => {
                            assert(elem_pay(*self) == img_pay(v.img_data));
                        },
                        _ => {
                        },
                    }
                }
                return Err(e);
            },
        };
        let mut body_moved = body;
        h.append(&mut body_moved);
        proof {
            assert(h@ =~= elem_bytes(*self, *old(blob_offset) as int));
            if elem_wf(*self) {
                assert(h@.len() == bin_size_spec(*self));
            }
            match *self {
                Element::Image(_) | Element::DayName(_) | Element::BatteryFill(_)
                    | Element::TimeHand(_) | Element::BarDisplay(_) | Element::Weather(_)
                    | Element::Dash(_) => {
                },
                _ => {
                    assert(old(blob_data)@ + Seq::<u8>::empty() =~= old(blob_data)@);
                },
            }
        }
        Ok(h)
    }
}

/// The blob offset that the record `k` slots into a run of images points
/// at: the run's base plus the payloads before it.
pub open spec fn owh_off_at(ids: Seq<ImgData>, off: int, k: int) -> int
    decreases k,
{
    if k <= 0 {
        off
    } else {
        owh_off_at(ids.drop_first(), off + img_pay_len(ids[0]), k - 1)
    }
}

/// Every pointer record of an image run carries the base offset plus the
/// payload bytes emitted before it.
pub proof fn lemma_owh_seq_offsets(ids: Seq<ImgData>, off: int, k: int)
    requires
        0 <= k < ids.len(),
    ensures
        crate::util::le32_at(owh_seq_bytes(ids, off), 8 * k) == (owh_off_at(ids, off, k) as u32),
    decreases k,
{
    let bytes = owh_seq_bytes(ids, off);
    let head = owh_bytes(off, ids[0]);
    let rest = owh_seq_bytes(ids.drop_first(), off + img_pay_len(ids[0]));
    assert(bytes == head + rest);
    if k == 0 {
        crate::util::lemma_le32_roundtrip(off as u32);
        assert(bytes[0] == u32_le_bytes(off as u32)[0]);
        assert(bytes[1] == u32_le_bytes(off as u32)[1]);
        assert(bytes[2] == u32_le_bytes(off as u32)[2]);
        assert(bytes[3] == u32_le_bytes(off as u32)[3]);
    } else {
        lemma_owh_seq_offsets(ids.drop_first(), off + img_pay_len(ids[0]), k - 1);
        lemma_owh_seq_len(ids.drop_first(), off + img_pay_len(ids[0]));
        assert(bytes[8 * k] == rest[8 * (k - 1)]);
        assert(bytes[8 * k + 1] == rest[8 * (k - 1) + 1]);
        assert(bytes[8 * k + 2] == rest[8 * (k - 1) + 2]);
        assert(bytes[8 * k + 3] == rest[8 * (k - 1) + 3]);
    }
}

/// When a run of images starts at a 4-byte boundary, every pointer record
/// in it carries a 4-byte-aligned blob offset: each payload is padded, so
/// alignment is kept from record to record.
pub proof fn lemma_owh_offsets_aligned(ids: Seq<ImgData>, off: int, k: int)
    requires
        0 <= k < ids.len(),
        off % 4 == 0,
    ensures
        owh_off_at(ids, off, k) % 4 == 0,
    decreases k,
{
    if k > 0 {
        let n = (ids[0].header@ + ids[0].data@).len() as int;
        assert(img_pay_len(ids[0]) % 4 == 0) by (nonlinear_arith)
            requires
                n >= 0,
                img_pay_len(ids[0]) == align4_spec(n),
                align4_spec(n) == n + (if n % 4 == 0 {
                    0int
                } else {
                    4 - n % 4
                }),
        ;
        assert((off + img_pay_len(ids[0])) % 4 == 0) by (nonlinear_arith)
            requires
                off % 4 == 0,
                img_pay_len(ids[0]) % 4 == 0,
        ;
        lemma_owh_offsets_aligned(ids.drop_first(), off + img_pay_len(ids[0]), k - 1);
    }
}

// ---------------------------------------------------------------------------
// Parse / serialize agreement
// ---------------------------------------------------------------------------
// For the element kinds without image fields, the serialized record parses
// back to exactly the element it came from.  (Image-bearing kinds point
// into the blob region, so their round trip is a property of the whole
// container, not of one record.)

proof fn lemma_xys_bytes_index(xys: Seq<XY>, i: int, k: int)
    requires
        0 <= i < xys.len(),
        0 <= k < 4,
    ensures
        xys_bytes(xys)[4 * i + k] == xy_bytes(xys[i])[k],
    decreases i,
{
    lemma_xys_bytes_len(xys.drop_first());
    if i == 0 {
        assert(xys_bytes(xys)[k] == xy_bytes(xys[0])[k]);
    } else {
        lemma_xys_bytes_index(xys.drop_first(), i - 1, k);
        assert(xys.drop_first()[i - 1] == xys[i]);
        assert(xys_bytes(xys)[4 * i + k] == xys_bytes(xys.drop_first())[4 * (i - 1) + k]);
    }
}

/// A numeric display body, prefixed with its flag and type bytes, parses
/// back to exactly the fields it was serialized from.
pub proof fn lemma_num_body_roundtrip(t: u8, digit_set: u8, align: u8, x: u16, y: u16,
    unknown: Seq<u8>)
    ensures
        is_num_body_parse(
            seq![1u8, t] + num_body_bytes(digit_set, align, x, y, unknown),
            2,
            unknown.len() as int,
            digit_set,
            align,
            x,
            y,
            unknown,
        ),
{
    let s = seq![1u8, t] + num_body_bytes(digit_set, align, x, y, unknown);
    crate::util::lemma_le16_roundtrip(x);
    crate::util::lemma_le16_roundtrip(y);
    assert(s[2] == digit_set && s[3] == align);
    assert(s[4] == u16_le_bytes(x)[0] && s[5] == u16_le_bytes(x)[1]);
    assert(s[6] == u16_le_bytes(y)[0] && s[7] == u16_le_bytes(y)[1]);
    assert(s.subrange(8, 8 + unknown.len() as int) =~= unknown);
}

/// A two-digit display body, prefixed with its flag and type bytes, parses
/// back to exactly the fields it was serialized from.
pub proof fn lemma_two_digit_roundtrip(t: u8, digit_set: u8, align: u8, xys: Seq<XY>)
    requires
        xys.len() == 2,
    ensures
        is_two_digit_parse(seq![1u8, t] + two_digit_bytes(digit_set, align, xys), 2, digit_set,
            align, xys),
{
    let s = seq![1u8, t] + two_digit_bytes(digit_set, align, xys);
    lemma_xys_bytes_len(xys);
    assert(s[2] == digit_set && s[3] == align);
    assert forall|i: int, k: int| 0 <= i < 2 && 0 <= k < 4 implies s[4 + 4 * i + k] == xy_bytes(
        xys[i],
    )[k] by {
        lemma_xys_bytes_index(xys, i, k);
    }
    crate::xy::lemma_xy_roundtrip(xys[0]);
    crate::xy::lemma_xy_roundtrip(xys[1]);
    assert(xy_parse(s, 4) == xys[0]) by {
        assert(s[4] == xy_bytes(xys[0])[0] && s[5] == xy_bytes(xys[0])[1] && s[6] == xy_bytes(
            xys[0],
        )[2] && s[7] == xy_bytes(xys[0])[3]);
        crate::util::lemma_le16_roundtrip(xys[0].x);
        crate::util::lemma_le16_roundtrip(xys[0].y);
    }
    assert(xy_parse(s, 8) == xys[1]) by {
        assert(s[8] == xy_bytes(xys[1])[0] && s[9] == xy_bytes(xys[1])[1] && s[10] == xy_bytes(
            xys[1],
        )[2] && s[11] == xy_bytes(xys[1])[3]);
        crate::util::lemma_le16_roundtrip(xys[1].x);
        crate::util::lemma_le16_roundtrip(xys[1].y);
    }
}

/// A time display body, prefixed with its flag and type bytes, parses back
/// to exactly the element it was serialized from.
pub proof fn lemma_time_num_roundtrip(v: TimeNum)
    requires
        v.wf(),
    ensures
        is_time_num_parse(seq![1u8, 2u8] + time_num_bytes(v), 2, v),
{
    let s = seq![1u8, 2u8] + time_num_bytes(v);
    lemma_xys_bytes_len(v.xys@);
    assert(s.subrange(2, 6) =~= v.digit_sets@);
    assert forall|i: int| 0 <= i < 4 implies v.xys@[i] == xy_parse(s, 6 + 4 * i) by {
        assert(s[6 + 4 * i] == xy_bytes(v.xys@[i])[0]) by {
            lemma_xys_bytes_index(v.xys@, i, 0);
        }
        assert(s[6 + 4 * i + 1] == xy_bytes(v.xys@[i])[1]) by {
            lemma_xys_bytes_index(v.xys@, i, 1);
        }
        assert(s[6 + 4 * i + 2] == xy_bytes(v.xys@[i])[2]) by {
            lemma_xys_bytes_index(v.xys@, i, 2);
        }
        assert(s[6 + 4 * i + 3] == xy_bytes(v.xys@[i])[3]) by {
            lemma_xys_bytes_index(v.xys@, i, 3);
        }
        crate::util::lemma_le16_roundtrip(v.xys@[i].x);
        crate::util::lemma_le16_roundtrip(v.xys@[i].y);
        assert(xy_parse(s, 6 + 4 * i).x == v.xys@[i].x);
        assert(xy_parse(s, 6 + 4 * i).y == v.xys@[i].y);
    }
    assert(s.subrange(22, 34) =~= v.unknown@);
}

/// A one-byte pass-through record parses back to itself.
pub proof fn lemma_unknown29_roundtrip(v: Unknown29)
    ensures
        (seq![1u8, 29u8] + seq![v.unknown])[2] == v.unknown,
{
}

/// The type codes with a known record layout.
pub open spec fn known_type(t: u8) -> bool {
    t == 0 || t == 2 || t == 4 || t == 5 || t == 6 || t == 7 || t == 9 || t == 10 || t == 13 || t
        == 15 || t == 18 || t == 27 || t == 29 || t == 35
}

/// The on-disk size of the element record at `base`, prefix included, read
/// from the record's own bytes: fixed per type code, or derived from the
/// count byte of the two counted kinds.  Meaningful only for known codes.
pub open spec fn elem_size_at(file: Seq<u8>, base: int) -> int {
    let t = file[base + 1];
    if t == 0 {
        14
    } else if t == 2 {
        34
    } else if t == 4 {
        63
    } else if t == 5 {
        42
    } else if t == 6 || t == 7 {
        26
    } else if t == 9 {
        19
    } else if t == 10 {
        19
    } else if t == 13 || t == 15 {
        12
    } else if t == 18 {
        8 + 8 * file[base + 3]
    } else if t == 27 {
        7 + 8 * file[base + 2]
    } else if t == 29 {
        3
    } else {
        10
    }
}

/// A parsed element other than `Unknown` is exactly as large as its record's
/// own bytes declare.
pub proof fn lemma_elem_size_at(file: Seq<u8>, base: int, e: Element)
    requires
        is_elem_parse(file, base, e),
        !(e matches Element::Unknown),
    ensures
        known_type(file[base + 1]),
        bin_size_spec(e) == elem_size_at(file, base),
{
    let t = file[base + 1];
    if t == 18 {
        assert(e matches Element::BarDisplay(v) && v.count == file[base + 3]);
    } else if t == 27 {
        assert(e matches Element::Weather(v) && v.count == file[base + 2]);
    }
}

} // verus!
