//! The headers of the bitmap interchange format, read and written field by
//! field in little-endian order: nothing here depends on host byte order or
//! struct layout.

use vstd::prelude::*;
use crate::error::FaceError;
use crate::util::{get_u16, get_u32, le16_at, le32_at, push_u16, push_u32, u16_le_bytes,
    u32_le_bytes};

verus! {

/// Byte size of the classic header together with the three bitfield masks
/// that follow it at 16 bits per pixel.
pub open spec fn classic_size() -> int {
    66
}

/// Byte size of the first extended header layout.
pub open spec fn v4_size() -> int {
    122
}

/// Byte size of the second extended header layout, the one this library
/// writes.
pub open spec fn v5_size() -> int {
    138
}

/// The classic bitmap header, with the three bitfield masks that follow it.
#[derive(Clone, Copy, PartialEq, Debug)]
pub struct BMPHeaderClassic {
    pub sig: u16,
    pub file_size: u32,
    pub reserved1: u16,
    pub reserved2: u16,
    pub offset: u32,
    pub dib_header_size: u32,
    pub width: i32,
    pub height: i32,
    pub planes: u16,
    pub bpp: u16,
    pub compression_type: u32,
    pub image_data_size: u32,
    pub hres: u32,
    pub vres: u32,
    pub clr_used: u32,
    pub clr_important: u32,
    pub bmi_colors: [u32; 3],
}

impl BMPHeaderClassic {
    /// Parse the classic header fields from the front of `bytes`.
    pub fn from_bytes(bytes: &[u8]) -> (r: Result<Self, FaceError>)
        ensures
            match r {
                Ok(h) => bytes@.len() >= classic_size() && h.sig == le16_at(bytes@, 0)
                    && h.file_size == le32_at(bytes@, 2) && h.reserved1 == le16_at(bytes@, 6)
                    && h.reserved2 == le16_at(bytes@, 8) && h.offset == le32_at(bytes@, 10)
                    && h.dib_header_size == le32_at(bytes@, 14) && h.width == le32_at(
                    bytes@,
                    18,
                ) as i32 && h.height == le32_at(bytes@, 22) as i32 && h.planes == le16_at(
                    bytes@,
                    26,
                ) && h.bpp == le16_at(bytes@, 28) && h.compression_type == le32_at(bytes@, 30)
                    && h.image_data_size == le32_at(bytes@, 34) && h.hres == le32_at(bytes@, 38)
                    && h.vres == le32_at(bytes@, 42) && h.clr_used == le32_at(bytes@, 46)
                    && h.clr_important == le32_at(bytes@, 50) && h.bmi_colors@ == seq![
                    le32_at(bytes@, 54),
                    le32_at(bytes@, 58),
                    le32_at(bytes@, 62),
                ],
                Err(e) => e == FaceError::BmpTooSmall && bytes@.len() < classic_size(),
            },
    {
        let n = bytes.len();
        if n < 66 {
            return Err(FaceError::BmpTooSmall);
        }
        let bmi_colors = [get_u32(bytes, 54), get_u32(bytes, 58), get_u32(bytes, 62)];
        proof {
            assert(bmi_colors@ =~= seq![le32_at(bytes@, 54), le32_at(bytes@, 58), le32_at(
                bytes@,
                62,
            )]);
        }
        Ok(
            BMPHeaderClassic {
                sig: get_u16(bytes, 0),
                file_size: get_u32(bytes, 2),
                reserved1: get_u16(bytes, 6),
                reserved2: get_u16(bytes, 8),
                offset: get_u32(bytes, 10),
                dib_header_size: get_u32(bytes, 14),
                width: get_u32(bytes, 18) as i32,
                height: get_u32(bytes, 22) as i32,
                planes: get_u16(bytes, 26),
                bpp: get_u16(bytes, 28),
                compression_type: get_u32(bytes, 30),
                image_data_size: get_u32(bytes, 34),
                hres: get_u32(bytes, 38),
                vres: get_u32(bytes, 42),
                clr_used: get_u32(bytes, 46),
                clr_important: get_u32(bytes, 50),
                bmi_colors,
            },
        )
    }
}

/// The first extended header layout, with four channel masks.
#[derive(Clone, Copy, PartialEq, Debug)]
pub struct BMPHeaderV4 {
    pub sig: u16,
    pub file_size: u32,
    pub reserved1: u16,
    pub reserved2: u16,
    pub offset: u32,
    pub dib_header_size: u32,
    pub width: i32,
    pub height: i32,
    pub planes: u16,
    pub bpp: u16,
    pub compression_type: u32,
    pub image_data_size: u32,
    pub hres: u32,
    pub vres: u32,
    pub clr_used: u32,
    pub clr_important: u32,
    pub rgba_masks: [u32; 4],
}

impl BMPHeaderV4 {
    /// Parse the extended header fields used by the codec (through the four
    /// channel masks) from the front of `bytes`.
    pub fn from_bytes(bytes: &[u8]) -> (r: Result<Self, FaceError>)
        ensures
            match r {
                Ok(h) => bytes@.len() >= v4_size() && h.sig == le16_at(bytes@, 0) && h.file_size
                    == le32_at(bytes@, 2) && h.reserved1 == le16_at(bytes@, 6) && h.reserved2
                    == le16_at(bytes@, 8) && h.offset == le32_at(bytes@, 10) && h.dib_header_size
                    == le32_at(bytes@, 14) && h.width == le32_at(bytes@, 18) as i32 && h.height
                    == le32_at(bytes@, 22) as i32 && h.planes == le16_at(bytes@, 26) && h.bpp
                    == le16_at(bytes@, 28) && h.compression_type == le32_at(bytes@, 30)
                    && h.image_data_size == le32_at(bytes@, 34) && h.hres == le32_at(bytes@, 38)
                    && h.vres == le32_at(bytes@, 42) && h.clr_used == le32_at(bytes@, 46)
                    && h.clr_important == le32_at(bytes@, 50) && h.rgba_masks@ == seq![
                    le32_at(bytes@, 54),
                    le32_at(bytes@, 58),
                    le32_at(bytes@, 62),
                    le32_at(bytes@, 66),
                ],
                Err(e) => e == FaceError::BmpTooSmall && bytes@.len() < v4_size(),
            },
    {
        let n = bytes.len();
        if n < 122 {
            return Err(FaceError::BmpTooSmall);
        }
        let rgba_masks = [
            get_u32(bytes, 54),
            get_u32(bytes, 58),
            get_u32(bytes, 62),
            get_u32(bytes, 66),
        ];
        proof {
            assert(rgba_masks@ =~= seq![le32_at(bytes@, 54), le32_at(bytes@, 58), le32_at(
                bytes@,
                62,
            ), le32_at(bytes@, 66)]);
        }
        Ok(
            BMPHeaderV4 {
                sig: get_u16(bytes, 0),
                file_size: get_u32(bytes, 2),
                reserved1: get_u16(bytes, 6),
                reserved2: get_u16(bytes, 8),
                offset: get_u32(bytes, 10),
                dib_header_size: get_u32(bytes, 14),
                width: get_u32(bytes, 18) as i32,
                height: get_u32(bytes, 22) as i32,
                planes: get_u16(bytes, 26),
                bpp: get_u16(bytes, 28),
                compression_type: get_u32(bytes, 30),
                image_data_size: get_u32(bytes, 34),
                hres: get_u32(bytes, 38),
                vres: get_u32(bytes, 42),
                clr_used: get_u32(bytes, 46),
                clr_important: get_u32(bytes, 50),
                rgba_masks,
            },
        )
    }
}

/// The second extended header layout: what this library writes when it
/// exports an image, always 32-bit truecolor, top-down, with the standard
/// channel masks.
#[derive(Clone, Copy, PartialEq, Debug)]
pub struct BMPHeaderV5 {
    pub sig: u16,
    pub file_size: u32,
    pub reserved1: u16,
    pub reserved2: u16,
    pub offset: u32,
    pub dib_header_size: u32,
    pub width: i32,
    pub height: i32,
    pub planes: u16,
    pub bpp: u16,
    pub compression_type: u32,
    pub image_data_size: u32,
    pub hres: u32,
    pub vres: u32,
    pub clr_used: u32,
    pub clr_important: u32,
    pub rgba_masks: [u32; 4],
    pub cs_type: u32,
    pub bv4_endpoints: [u32; 9],
    pub gammas: [u32; 3],
    pub intent: u32,
    pub profile_data: u32,
    pub profile_size: u32,
    pub reserved: u32,
}

/// The padded byte width of one row at `bpp` bits per pixel.
pub open spec fn bmp_row_size(width: int, bpp: int) -> int {
    ((bpp / 8) * width + 3) / 4 * 4
}

impl BMPHeaderV5 {
    /// Build the fixed header for an image of the given dimensions and bit
    /// depth: top-down row order, fixed resolution metadata, and for 16 or
    /// 32 bits per pixel the standard channel masks.
    pub fn new(width: u32, height: u32, bpp: u8) -> (r: BMPHeaderV5)
        requires
            bpp == 16 || bpp == 24 || bpp == 32,
            width <= 0xFFFF,
            height <= 0xFFFF,
            width * height <= 0x0FFF_FFFF,
        ensures
            r.sig == 0x4D42,
            r.reserved1 == 0 && r.reserved2 == 0,
            r.offset == v5_size(),
            r.dib_header_size == 124,
            r.width == width as i32,
            r.height == -(height as i32),
            r.planes == 1,
            r.bpp == bpp,
            r.compression_type == (if bpp == 24 {
                0u32
            } else {
                3u32
            }),
            bpp == 16 ==> r.rgba_masks@ == seq![0xF800u32, 0x07E0u32, 0x001Fu32, 0u32],
            bpp == 32 ==> r.rgba_masks@ == seq![
                0xFF0000u32,
                0x00FF00u32,
                0x0000FFu32,
                0xFF000000u32,
            ],
            bpp == 24 ==> r.rgba_masks@ == seq![0u32, 0u32, 0u32, 0u32],
            r.image_data_size == bmp_row_size(width as int, bpp as int) * height,
            r.file_size == r.image_data_size + v5_size(),
            r.hres == 2835 && r.vres == 2835,
            r.clr_used == 0 && r.clr_important == 0,
            r.cs_type == 0 && r.intent == 0 && r.profile_data == 0 && r.profile_size == 0
                && r.reserved == 0,
            r.bv4_endpoints@ == Seq::new(9, |i: int| 0u32),
            r.gammas@ == seq![0u32, 0u32, 0u32],
    {
        let row_size: u32 = if bpp == 16 {
            (2 * width + 3) / 4 * 4
        } else if bpp == 24 {
            (3 * width + 3) / 4 * 4
        } else {
            (4 * width + 3) / 4 * 4
        };
        proof {
            assert(row_size as int * height as int <= 0x7FFF_FF00) by (nonlinear_arith)
                requires
                    0 <= row_size <= 4 * (width as int) + 6,
                    (width as int) * (height as int) <= 0x0FFF_FFFF,
                    0 <= height <= 0xFFFF,
                    0 <= width,
            ;
        }
        let image_data_size = row_size * height;
        let mut rgba_masks = [0u32, 0, 0, 0];
        let mut compression_type: u32 = 0;
        if bpp == 16 {
            compression_type = 3;
            rgba_masks = [0xF800, 0x07E0, 0x001F, 0];
        } else if bpp == 32 {
            compression_type = 3;
            rgba_masks = [0xFF0000, 0x00FF00, 0x0000FF, 0xFF000000];
        }
        let r = BMPHeaderV5 {
            sig: 0x4D42,
            file_size: image_data_size + 138,
            reserved1: 0,
            reserved2: 0,
            offset: 138,
            dib_header_size: 124,
            width: width as i32,
            height: -(height as i32),
            planes: 1,
            bpp: bpp as u16,
            compression_type,
            image_data_size,
            hres: 2835,
            vres: 2835,
            clr_used: 0,
            clr_important: 0,
            rgba_masks,
            cs_type: 0,
            bv4_endpoints: [0, 0, 0, 0, 0, 0, 0, 0, 0],
            gammas: [0, 0, 0],
            intent: 0,
            profile_data: 0,
            profile_size: 0,
            reserved: 0,
        };
        proof {
            assert(r.bv4_endpoints@ =~= Seq::new(9, |i: int| 0u32));
            assert(r.gammas@ =~= seq![0u32, 0u32, 0u32]);
            if bpp == 16 {
                assert(r.rgba_masks@ =~= seq![0xF800u32, 0x07E0u32, 0x001Fu32, 0u32]);
            } else if bpp == 32 {
                assert(r.rgba_masks@ =~= seq![0xFF0000u32, 0x00FF00u32, 0x0000FFu32,
                    0xFF000000u32]);
            } else {
                assert(r.rgba_masks@ =~= seq![0u32, 0u32, 0u32, 0u32]);
            }
        }
        r
    }

    /// Bytes of the file header and the core image description fields.
    #[verifier::opaque]
    pub open spec fn bytes_spec_core(self) -> Seq<u8> {
        u16_le_bytes(self.sig) + u32_le_bytes(self.file_size) + u16_le_bytes(self.reserved1)
            + u16_le_bytes(self.reserved2) + u32_le_bytes(self.offset) + u32_le_bytes(
            self.dib_header_size,
        ) + u32_le_bytes(self.width as u32) + u32_le_bytes(self.height as u32) + u16_le_bytes(
            self.planes,
        ) + u16_le_bytes(self.bpp) + u32_le_bytes(self.compression_type) + u32_le_bytes(
            self.image_data_size,
        )
    }

    /// Bytes of the resolution, palette and channel mask fields.
    #[verifier::opaque]
    pub open spec fn bytes_spec_masks(self) -> Seq<u8> {
        u32_le_bytes(self.hres) + u32_le_bytes(self.vres) + u32_le_bytes(self.clr_used)
            + u32_le_bytes(self.clr_important) + u32_le_bytes(self.rgba_masks@[0]) + u32_le_bytes(
            self.rgba_masks@[1],
        ) + u32_le_bytes(self.rgba_masks@[2]) + u32_le_bytes(self.rgba_masks@[3]) + u32_le_bytes(
            self.cs_type,
        )
    }

    /// Bytes of the color space and profile fields that end the header.
    #[verifier::opaque]
    pub open spec fn bytes_spec_tail(self) -> Seq<u8> {
        u32_le_bytes(self.bv4_endpoints@[0]) + u32_le_bytes(self.bv4_endpoints@[1])
            + u32_le_bytes(self.bv4_endpoints@[2]) + u32_le_bytes(self.bv4_endpoints@[3])
            + u32_le_bytes(self.bv4_endpoints@[4]) + u32_le_bytes(self.bv4_endpoints@[5])
            + u32_le_bytes(self.bv4_endpoints@[6]) + u32_le_bytes(self.bv4_endpoints@[7])
            + u32_le_bytes(self.bv4_endpoints@[8]) + u32_le_bytes(self.gammas@[0]) + u32_le_bytes(
            self.gammas@[1],
        ) + u32_le_bytes(self.gammas@[2]) + u32_le_bytes(self.intent) + u32_le_bytes(
            self.profile_data,
        ) + u32_le_bytes(self.profile_size) + u32_le_bytes(self.reserved)
    }

    /// The serialized little-endian form of this header.
    pub open spec fn bytes_spec(self) -> Seq<u8> {
        self.bytes_spec_core() + self.bytes_spec_masks() + self.bytes_spec_tail()
    }

    #[verifier::rlimit(100)]
    fn push_core(&self, v: &mut Vec<u8>)
        ensures
            final(v)@ == old(v)@ + self.bytes_spec_core(),
            self.bytes_spec_core().len() == 38,
    {
        let ghost v0 = v@;
        push_u16(v, self.sig);
        push_u32(v, self.file_size);
        push_u16(v, self.reserved1);
        push_u16(v, self.reserved2);
        push_u32(v, self.offset);
        push_u32(v, self.dib_header_size);
        push_u32(v, self.width as u32);
        push_u32(v, self.height as u32);
        push_u16(v, self.planes);
        push_u16(v, self.bpp);
        push_u32(v, self.compression_type);
        push_u32(v, self.image_data_size);
        proof {
            reveal(BMPHeaderV5::bytes_spec_core);
            assert(v@ =~= v0 + self.bytes_spec_core());
        }
    }

    #[verifier::rlimit(100)]
    fn push_masks(&self, v: &mut Vec<u8>)
        ensures
            final(v)@ == old(v)@ + self.bytes_spec_masks(),
            self.bytes_spec_masks().len() == 36,
    {
        let ghost v0 = v@;
        push_u32(v, self.hres);
        push_u32(v, self.vres);
        push_u32(v, self.clr_used);
        push_u32(v, self.clr_important);
        push_u32(v, self.rgba_masks[0]);
        push_u32(v, self.rgba_masks[1]);
        push_u32(v, self.rgba_masks[2]);
        push_u32(v, self.rgba_masks[3]);
        push_u32(v, self.cs_type);
        proof {
            reveal(BMPHeaderV5::bytes_spec_masks);
            assert(v@ =~= v0 + self.bytes_spec_masks());
        }
    }

    #[verifier::rlimit(100)]
    fn push_tail(&self, v: &mut Vec<u8>)
        ensures
            final(v)@ == old(v)@ + self.bytes_spec_tail(),
            self.bytes_spec_tail().len() == 64,
    {
        let ghost v0 = v@;
        push_u32(v, self.bv4_endpoints[0]);
        push_u32(v, self.bv4_endpoints[1]);
        push_u32(v, self.bv4_endpoints[2]);
        push_u32(v, self.bv4_endpoints[3]);
        push_u32(v, self.bv4_endpoints[4]);
        push_u32(v, self.bv4_endpoints[5]);
        push_u32(v, self.bv4_endpoints[6]);
        push_u32(v, self.bv4_endpoints[7]);
        push_u32(v, self.bv4_endpoints[8]);
        push_u32(v, self.gammas[0]);
        push_u32(v, self.gammas[1]);
        push_u32(v, self.gammas[2]);
        push_u32(v, self.intent);
        push_u32(v, self.profile_data);
        push_u32(v, self.profile_size);
        push_u32(v, self.reserved);
        proof {
            reveal(BMPHeaderV5::bytes_spec_tail);
            assert(v@ =~= v0 + self.bytes_spec_tail());
        }
    }

    /// Serialize the header.
    #[verifier::rlimit(100)]
    pub fn to_bytes(&self) -> (r: Vec<u8>)
        ensures
            r@ == self.bytes_spec(),
            r@.len() == v5_size(),
    {
        let mut v: Vec<u8> = Vec::new();
        self.push_core(&mut v);
        self.push_masks(&mut v);
        self.push_tail(&mut v);
        proof {
            assert(Seq::<u8>::empty() + self.bytes_spec_core() =~= self.bytes_spec_core());
            assert(v@ == self.bytes_spec());
        }
        v
    }
}

/// The fields a reader checks first stand at their fixed places in the
/// serialized header.
#[verifier::rlimit(100)]
pub proof fn lemma_v5_field_bytes(h: BMPHeaderV5)
    ensures
        le16_at(h.bytes_spec(), 0) == h.sig,
        le32_at(h.bytes_spec(), 10) == h.offset,
        le32_at(h.bytes_spec(), 18) == h.width as u32,
        le32_at(h.bytes_spec(), 22) == h.height as u32,
        le16_at(h.bytes_spec(), 28) == h.bpp,
{
    reveal(BMPHeaderV5::bytes_spec_core);
    let c = h.bytes_spec_core();
    let b = h.bytes_spec();
    assert(c.len() == 38);
    assert forall|i: int| 0 <= i < 38 implies b[i] == c[i] by {
        assert(b[i] == (c + h.bytes_spec_masks())[i]);
    }
    crate::util::lemma_le16_roundtrip(h.sig);
    crate::util::lemma_le32_roundtrip(h.offset);
    crate::util::lemma_le32_roundtrip(h.width as u32);
    crate::util::lemma_le32_roundtrip(h.height as u32);
    crate::util::lemma_le16_roundtrip(h.bpp);
    assert(c[0] == u16_le_bytes(h.sig)[0] && c[1] == u16_le_bytes(h.sig)[1]);
    assert(c[10] == u32_le_bytes(h.offset)[0] && c[11] == u32_le_bytes(h.offset)[1] && c[12]
        == u32_le_bytes(h.offset)[2] && c[13] == u32_le_bytes(h.offset)[3]);
    assert(c[18] == u32_le_bytes(h.width as u32)[0] && c[19] == u32_le_bytes(h.width as u32)[1]
        && c[20] == u32_le_bytes(h.width as u32)[2] && c[21] == u32_le_bytes(h.width as u32)[3]);
    assert(c[22] == u32_le_bytes(h.height as u32)[0] && c[23] == u32_le_bytes(h.height as u32)[1]
        && c[24] == u32_le_bytes(h.height as u32)[2] && c[25] == u32_le_bytes(
        h.height as u32,
    )[3]);
    assert(c[28] == u16_le_bytes(h.bpp)[0] && c[29] == u16_le_bytes(h.bpp)[1]);
}

/// The full header the bitmap writer emits for a `w` by `h` truecolor
/// image, byte for byte: fixed signature, sizes, top-down height, one
/// plane, 32 bits per pixel, bitfield compression, fixed resolution, the
/// standard channel masks, and zeroed color-space and profile fields.
#[verifier::opaque]
pub open spec fn v5_out_bytes(w: u32, h: u32) -> Seq<u8> {
    u16_le_bytes(0x4D42u16) + u32_le_bytes((4 * (w as int) * (h as int) + 138) as u32)
        + u16_le_bytes(0u16) + u16_le_bytes(0u16) + u32_le_bytes(138u32) + u32_le_bytes(124u32)
        + u32_le_bytes(w) + u32_le_bytes((-(h as i32)) as u32) + u16_le_bytes(1u16)
        + u16_le_bytes(32u16) + u32_le_bytes(3u32) + u32_le_bytes(
        (4 * (w as int) * (h as int)) as u32,
    ) + u32_le_bytes(2835u32) + u32_le_bytes(2835u32) + u32_le_bytes(0u32) + u32_le_bytes(0u32)
        + u32_le_bytes(0xFF0000u32) + u32_le_bytes(0x00FF00u32) + u32_le_bytes(0x0000FFu32)
        + u32_le_bytes(0xFF000000u32) + u32_le_bytes(0u32) + u32_le_bytes(0u32) + u32_le_bytes(
        0u32,
    ) + u32_le_bytes(0u32) + u32_le_bytes(0u32) + u32_le_bytes(0u32) + u32_le_bytes(0u32)
        + u32_le_bytes(0u32) + u32_le_bytes(0u32) + u32_le_bytes(0u32) + u32_le_bytes(0u32)
        + u32_le_bytes(0u32) + u32_le_bytes(0u32) + u32_le_bytes(0u32) + u32_le_bytes(0u32)
        + u32_le_bytes(0u32) + u32_le_bytes(0u32)
}

/// The header built for a truecolor image serializes to exactly
/// `v5_out_bytes` of its dimensions.
#[verifier::rlimit(100)]
#[verifier::spinoff_prover]
pub proof fn lemma_v5_out_bytes(r: BMPHeaderV5, w: u32, h: u32)
    requires
        w <= 0xFFFF,
        h <= 0xFFFF,
        w as int * h as int <= 0x0FFF_FFFF,
        r.sig == 0x4D42,
        r.reserved1 == 0 && r.reserved2 == 0,
        r.offset == v5_size(),
        r.dib_header_size == 124,
        r.width == w as i32,
        r.height == -(h as i32),
        r.planes == 1,
        r.bpp == 32,
        r.compression_type == 3,
        r.rgba_masks@ == seq![0xFF0000u32, 0x00FF00u32, 0x0000FFu32, 0xFF000000u32],
        r.image_data_size == bmp_row_size(w as int, 32) * h,
        r.file_size == r.image_data_size + v5_size(),
        r.hres == 2835 && r.vres == 2835,
        r.clr_used == 0 && r.clr_important == 0,
        r.cs_type == 0 && r.intent == 0 && r.profile_data == 0 && r.profile_size == 0
            && r.reserved == 0,
        r.bv4_endpoints@ == Seq::new(9, |i: int| 0u32),
        r.gammas@ == seq![0u32, 0u32, 0u32],
    ensures
        r.bytes_spec() == v5_out_bytes(w, h),
{
    reveal(BMPHeaderV5::bytes_spec_core);
    reveal(BMPHeaderV5::bytes_spec_masks);
    reveal(BMPHeaderV5::bytes_spec_tail);
    assert(bmp_row_size(w as int, 32) == 4 * (w as int)) by (nonlinear_arith)
        requires
            bmp_row_size(w as int, 32) == ((32int / 8) * (w as int) + 3) / 4 * 4,
            0 <= w,
    ;
    assert(r.image_data_size == 4 * (w as int) * (h as int)) by (nonlinear_arith)
        requires
            r.image_data_size == bmp_row_size(w as int, 32) * h,
            bmp_row_size(w as int, 32) == 4 * (w as int),
    ;
    reveal(v5_out_bytes);
    assert(r.bytes_spec() =~= v5_out_bytes(w, h));
}

} // verus!
