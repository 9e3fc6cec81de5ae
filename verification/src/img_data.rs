//! The on-disk compressed form of one image: the per-row header table, the
//! compressed payload, the declared dimensions, and an optional file name
//! used when the image is exported for editing or re-imported.

use vstd::prelude::*;
use crate::error::FaceError;
use crate::img::{entry_offset, entry_len, read_row_entry};
use crate::sane_file_name::{sane_file_name, sane_spec};
use crate::util::{get_u16, get_u32, le16_spec, le32_spec, padded4_ff, pad_it};

verus! {

/// The forms an image asset can be exported in: the raw on-disk compressed
/// bytes, the decompressed packed pixels, or a bitmap interchange file.
#[derive(Clone, Copy, PartialEq, Eq, Structural, Debug)]
pub enum DumpFormat {
    BIN,
    RAW,
    BMP,
}

/// One image asset in its binary compressed watch-face form.
#[derive(Clone, PartialEq, Debug, Default)]
pub struct ImgData {
    /// The per-row header table, one 4-byte entry per row.
    pub header: Vec<u8>,
    /// The compressed payload the entries point into.
    pub data: Vec<u8>,
    pub w: u16,
    pub h: u16,
    /// Where the asset is exported to or imported from, when known.
    pub file_name: Option<String>,
}

/// The blob offset field of the 8-byte offset/width/height record at `o`.
pub open spec fn owh_offset_spec(file: Seq<u8>, o: int) -> int {
    le32_spec(file[o], file[o + 1], file[o + 2], file[o + 3]) as int
}

/// The width field of the offset/width/height record at `o`.
pub open spec fn owh_w_spec(file: Seq<u8>, o: int) -> u16 {
    le16_spec(file[o + 4], file[o + 5])
}

/// The height field of the offset/width/height record at `o`.
pub open spec fn owh_h_spec(file: Seq<u8>, o: int) -> u16 {
    le16_spec(file[o + 6], file[o + 7])
}

/// The payload byte count derived from the last row header entry of the
/// image whose header table starts at `base`: the last row's offset plus its
/// length, minus the header table itself.
pub open spec fn data_size_spec(file: Seq<u8>, base: int, h: int) -> int {
    entry_offset(file, base + 4 * h - 4) + entry_len(file, base + 4 * h - 4) - 4 * h
}

/// All conditions under which an image with its header table at `base` and
/// `h` declared rows can be cut out of `file`.
pub open spec fn img_data_parse_ok(file: Seq<u8>, base: int, w: int, h: int) -> bool {
    h >= 1 && base + 4 * h <= file.len() && data_size_spec(file, base, h) >= 0 && base + 4 * h
        + data_size_spec(file, base, h) <= file.len()
}

/// The record at `o` points to an image that can be cut out of `file`.
pub open spec fn owh_ok(file: Seq<u8>, o: int) -> bool {
    o + 8 <= file.len() && img_data_parse_ok(
        file,
        owh_offset_spec(file, o),
        owh_w_spec(file, o) as int,
        owh_h_spec(file, o) as int,
    )
}

/// `id` holds exactly the image that the record at `o` points to.
pub open spec fn is_owh_parse(file: Seq<u8>, o: int, id: ImgData) -> bool {
    let base = owh_offset_spec(file, o);
    let h = owh_h_spec(file, o) as int;
    id.w == owh_w_spec(file, o) && id.h == owh_h_spec(file, o) && id.file_name is None
        && id.header@ == file.subrange(base, base + 4 * h) && id.data@ == file.subrange(
        base + 4 * h,
        base + 4 * h + data_size_spec(file, base, h),
    )
}

impl ImgData {
    /// The header table is one entry per declared row and the payload is
    /// within the size the on-disk offset and length fields can address.
    pub open spec fn wf(self) -> bool {
        self.header@.len() == 4 * self.h && self.data@.len() <= 0x200800
    }

    /// The bytes this asset contributes to the blob region: header table,
    /// then payload, padded to a 4-byte boundary with `0xFF`.
    pub open spec fn bin_bytes(self) -> Seq<u8> {
        padded4_ff(self.header@ + self.data@)
    }

    /// Size of the compressed payload of the image whose header table starts
    /// at `base_offset`, derived from the last of its `height` row entries.
    /// Fails when the last entry points before the end of the header table.
    pub fn get_data_size(file_data: &[u8], base_offset: usize, height: usize) -> (r: Result<
        usize,
        FaceError,
    >)
        requires
            height >= 1,
            height <= 0xFFFF,
            base_offset + 4 * height <= file_data@.len(),
        ensures
            match r {
                Ok(s) => s == data_size_spec(file_data@, base_offset as int, height as int) && s
                    <= 0x200800,
                Err(e) => e == FaceError::CorruptRle && data_size_spec(
                    file_data@,
                    base_offset as int,
                    height as int,
                ) < 0,
            },
    {
        let n = file_data.len();
        let header_size = height * 4;
        let last_header_entry = base_offset + header_size - 4;
        let (last_offset, last_size) = read_row_entry(file_data, last_header_entry);
        let image_size = (last_offset + last_size) as usize;
        if image_size < header_size {
            return Err(FaceError::CorruptRle);
        }
        Ok(image_size - header_size)
    }

    /// Cut the image with its header table at `bin_offset` and the declared
    /// dimensions out of `bin_data`.  Fails when the image has no rows, when
    /// any part of it lies outside the buffer, or when its derived payload
    /// size is negative.
    pub fn from_bin(bin_data: &[u8], bin_offset: usize, width: usize, height: usize) -> (r: Result<
        ImgData,
        FaceError,
    >)
        requires
            width <= 0xFFFF,
            height <= 0xFFFF,
        ensures
            match r {
                Ok(id) => img_data_parse_ok(
                    bin_data@,
                    bin_offset as int,
                    width as int,
                    height as int,
                ) && id.w == width && id.h == height && id.file_name is None && id.header@
                    == bin_data@.subrange(bin_offset as int, bin_offset + 4 * height) && id.data@
                    == bin_data@.subrange(
                    bin_offset + 4 * height,
                    bin_offset + 4 * height + data_size_spec(
                        bin_data@,
                        bin_offset as int,
                        height as int,
                    ),
                ) && id.wf(),
                Err(_) => !img_data_parse_ok(
                    bin_data@,
                    bin_offset as int,
                    width as int,
                    height as int,
                ),
            },
    {
        let n = bin_data.len();
        if height < 1 {
            return Err(FaceError::ZeroHeight);
        }
        let header_size = height * 4;
        if n < header_size || bin_offset > n - header_size {
            return Err(FaceError::Truncated);
        }
        let blob_size = match ImgData::get_data_size(bin_data, bin_offset, height) {
            Ok(s) => s,
            Err(e) => {
                return Err(e);
            },
        };
        if n - (bin_offset + header_size) < blob_size {
            return Err(FaceError::Truncated);
        }
        let mut header: Vec<u8> = Vec::new();
        let mut i: usize = 0;
        while i < header_size
            invariant
                i <= header_size,
                bin_offset + header_size <= usize::MAX,
                bin_offset + header_size <= bin_data@.len(),
                header@ == bin_data@.subrange(bin_offset as int, bin_offset + i),
            decreases header_size - i,
        {
            header.push(bin_data[bin_offset + i]);
            proof {
                assert(header@ =~= bin_data@.subrange(bin_offset as int, bin_offset + (i + 1)));
            }
            i = i + 1;
        }
        let data_base = bin_offset + header_size;
        let mut data: Vec<u8> = Vec::new();
        let mut j: usize = 0;
        while j < blob_size
            invariant
                j <= blob_size,
                data_base + blob_size <= usize::MAX,
                data_base + blob_size <= bin_data@.len(),
                data@ == bin_data@.subrange(data_base as int, data_base + j),
            decreases blob_size - j,
        {
            data.push(bin_data[data_base + j]);
            proof {
                assert(data@ =~= bin_data@.subrange(data_base as int, data_base + (j + 1)));
            }
            j = j + 1;
        }
        Ok(ImgData { header, data, w: width as u16, h: height as u16, file_name: None })
    }

    /// Read the 8-byte offset/width/height record at `owh_offset` and load
    /// the image it points to.
    pub fn from_owh(file_data: &[u8], owh_offset: usize) -> (r: Result<ImgData, FaceError>)
        ensures
            match r {
                Ok(id) => owh_ok(file_data@, owh_offset as int) && is_owh_parse(
                    file_data@,
                    owh_offset as int,
                    id,
                ) && id.wf(),
                Err(_) => !owh_ok(file_data@, owh_offset as int),
            },
    {
        let n = file_data.len();
        if n < 8 || owh_offset > n - 8 {
            return Err(FaceError::Truncated);
        }
        let bin_offset = get_u32(file_data, owh_offset) as usize;
        let width = get_u16(file_data, owh_offset + 4) as usize;
        let height = get_u16(file_data, owh_offset + 6) as usize;
        ImgData::from_bin(file_data, bin_offset, width, height)
    }

    /// The bytes this asset contributes to the blob region: its header
    /// table and payload, padded with `0xFF` to a 4-byte boundary.  The
    /// 8-byte offset/width/height record that points here is not included;
    /// only the caller that assigns blob offsets can produce it.
    pub fn to_bin(&self) -> (r: Vec<u8>)
        ensures
            r@ == self.bin_bytes(),
            r@.len() % 4 == 0,
            r@.len() == crate::util::align4_spec(self.header@.len() + self.data@.len() as int),
    {
        let mut bin_data: Vec<u8> = Vec::new();
        let mut i: usize = 0;
        let hn = self.header.len();
        while i < hn
            invariant
                i <= hn,
                hn == self.header@.len(),
                bin_data@ == self.header@.take(i as int),
            decreases hn - i,
        {
            bin_data.push(self.header[i]);
            proof {
                assert(bin_data@ =~= self.header@.take(i + 1));
            }
            i = i + 1;
        }
        let dn = self.data.len();
        let mut j: usize = 0;
        while j < dn
            invariant
                j <= dn,
                dn == self.data@.len(),
                bin_data@ == self.header@ + self.data@.take(j as int),
            decreases dn - j,
        {
            bin_data.push(self.data[j]);
            proof {
                assert(bin_data@ =~= self.header@ + self.data@.take(j + 1));
            }
            j = j + 1;
        }
        proof {
            assert(self.header@.take(hn as int) =~= self.header@);
            assert(self.data@.take(dn as int) =~= self.data@);
        }
        pad_it(&mut bin_data);
        bin_data
    }

    /// Set the file name if `overwrite` is given, or none is set yet, or the
    /// one set is not a sane file name.
    pub fn set_file_name(&mut self, file_name: &str, overwrite: bool)
        ensures
            final(self).header == old(self).header,
            final(self).data == old(self).data,
            final(self).w == old(self).w,
            final(self).h == old(self).h,
            (overwrite || old(self).file_name is None || !sane_spec(
                old(self).file_name.unwrap()@,
            )) ==> (final(self).file_name matches Some(f) && f@ == file_name@),
            !(overwrite || old(self).file_name is None || !sane_spec(
                old(self).file_name.unwrap()@,
            )) ==> final(self).file_name == old(self).file_name,
    {
        let set = if overwrite {
            true
        } else {
            match &self.file_name {
                None => true,
                Some(existing) => !sane_file_name(existing.as_str()),
            }
        };
        if set {
            self.file_name = Some(file_name.to_owned());
        }
    }
}

/// The export form a file name's extension calls for: its last four
/// characters, compared ignoring case.  Anything unrecognised, and any name
/// too short to have an extension, is taken to be a bitmap file.
pub open spec fn ext_format_spec(s: Seq<char>) -> DumpFormat {
    if s.len() > 4 {
        let i = s.len() - 4;
        if s[i] == '.' && crate::sane_file_name::ci(s[i + 1], 'B', 'b') && crate::sane_file_name::ci(
            s[i + 2],
            'I',
            'i',
        ) && crate::sane_file_name::ci(s[i + 3], 'N', 'n') {
            DumpFormat::BIN
        } else if s[i] == '.' && crate::sane_file_name::ci(s[i + 1], 'R', 'r')
            && crate::sane_file_name::ci(s[i + 2], 'A', 'a') && crate::sane_file_name::ci(
            s[i + 3],
            'W',
            'w',
        ) {
            DumpFormat::RAW
        } else {
            DumpFormat::BMP
        }
    } else {
        DumpFormat::BMP
    }
}

/// Whether `fname` ends, ignoring case, in the extension of the given form.
pub fn ext_format(fname: &str) -> (r: DumpFormat)
    ensures
        r == ext_format_spec(fname@),
{
    let n = fname.unicode_len();
    if n <= 4 {
        return DumpFormat::BMP;
    }
    let i = n - 4;
    let c0 = fname.get_char(i);
    let c1 = fname.get_char(i + 1);
    let c2 = fname.get_char(i + 2);
    let c3 = fname.get_char(i + 3);
    if c0 == '.' && (c1 == 'B' || c1 == 'b') && (c2 == 'I' || c2 == 'i') && (c3 == 'N' || c3
        == 'n') {
        DumpFormat::BIN
    } else if c0 == '.' && (c1 == 'R' || c1 == 'r') && (c2 == 'A' || c2 == 'a') && (c3 == 'W' || c3
        == 'w') {
        DumpFormat::RAW
    } else {
        DumpFormat::BMP
    }
}

/// The conditions under which a file's bytes convert into an asset in the
/// given form: a cuttable compressed image for the raw binary form; a
/// correctly sized pixel buffer whose rows compress into the header fields
/// for the raw pixel form; an acceptable bitmap whose converted rows do the
/// same for the bitmap form.
pub open spec fn import_ok_spec(id: ImgData, file: Seq<u8>, format: DumpFormat) -> bool {
    match format {
        DumpFormat::BIN => img_data_parse_ok(file, 0, id.w as int, id.h as int),
        DumpFormat::RAW => (id.w as int) * (id.h as int) <= 0x0FFF_FFFF && file.len() == 3 * ((
        id.w as int) * (id.h as int)) && crate::img::rows_fit(
            file,
            id.w as int,
            id.h as int,
            0,
            4 * id.h,
        ) && crate::img::rows_enc_bytes(file, id.w as int, id.h as int, 0).len() <= 0x200800,
        DumpFormat::BMP => crate::img::bmp_ok(file) && crate::img::rows_fit(
            crate::img::bmp_pixels_8565(file),
            crate::img::bmp_w(file),
            crate::img::bmp_habs(file),
            0,
            4 * crate::img::bmp_habs(file),
        ) && crate::img::rows_enc_bytes(
            crate::img::bmp_pixels_8565(file),
            crate::img::bmp_w(file),
            crate::img::bmp_habs(file),
            0,
        ).len() <= 0x200800,
    }
}

/// What a successful import leaves in the asset: for the pixel forms, the
/// per-row compression of the file's pixels under the kept file name; for
/// the raw binary form, the file cut apart as a blob of its own, which also
/// clears the file name.
pub open spec fn is_imported(pre: ImgData, post: ImgData, file: Seq<u8>, format: DumpFormat)
    -> bool {
    post.wf() && match format {
        DumpFormat::RAW => post.w == pre.w && post.h == pre.h && post.file_name == pre.file_name
            && post.data@ == crate::img::rows_enc_bytes(file, pre.w as int, pre.h as int, 0)
            && post.header@ == crate::img::rows_hdr_bytes(
            file,
            pre.w as int,
            pre.h as int,
            0,
            4 * pre.h,
        ) && crate::img::rle_decode(post.data@) == Some(file),
        DumpFormat::BMP => post.w == crate::img::bmp_w(file) && post.h == crate::img::bmp_habs(
            file,
        ) && post.file_name == pre.file_name && post.data@ == crate::img::rows_enc_bytes(
            crate::img::bmp_pixels_8565(file),
            crate::img::bmp_w(file),
            crate::img::bmp_habs(file),
            0,
        ) && post.header@ == crate::img::rows_hdr_bytes(
            crate::img::bmp_pixels_8565(file),
            crate::img::bmp_w(file),
            crate::img::bmp_habs(file),
            0,
            4 * crate::img::bmp_habs(file),
        ) && crate::img::rle_decode(post.data@) is Some,
        DumpFormat::BIN => post.w == pre.w && post.h == pre.h && post.file_name is None
            && post.header@ == file.subrange(0, 4 * pre.h) && post.data@ == file.subrange(
            4 * pre.h,
            4 * pre.h + data_size_spec(file, 0, pre.h as int),
        ),
    }
}

impl ImgData {
    /// Whether this asset can be imported or exported at all, and in which
    /// form: it needs a sane file name, whose extension picks the form.
    /// An asset without one is skipped, never an error.
    pub fn transfer_format(&self) -> (r: Option<DumpFormat>)
        ensures
            match r {
                Some(f) => (self.file_name matches Some(nm) && sane_spec(nm@) && f
                    == ext_format_spec(nm@)),
                None => self.file_name is None || !sane_spec(self.file_name.unwrap()@),
            },
    {
        match &self.file_name {
            None => None,
            Some(nm) => {
                if sane_file_name(nm.as_str()) {
                    Some(ext_format(nm.as_str()))
                } else {
                    None
                }
            },
        }
    }

    /// Replace this asset's pixel content from the bytes of an imported
    /// file of the given form.  A bitmap or raw file is compressed; a
    /// binary file already holds the compressed form and is cut apart as a
    /// blob of its own (this also clears the file name, as loading from a
    /// container does).
    pub fn import_img(&mut self, file_data: &Vec<u8>, format: DumpFormat) -> (r: Result<
        (),
        FaceError,
    >)
        ensures
            match r {
                Ok(()) => import_ok_spec(*old(self), file_data@, format) && is_imported(
                    *old(self),
                    *final(self),
                    file_data@,
                    format,
                ),
                Err(_) => !import_ok_spec(*old(self), file_data@, format) && *final(self) == *old(self),
            },
    {
        match format {
            DumpFormat::BMP | DumpFormat::RAW => {
                let mut img: crate::img::Img;
                if let DumpFormat::BMP = format {
                    img = match crate::img::Img::from_bmp(file_data) {
                        Ok(i) => i,
                        Err(e) => {
                            return Err(e);
                        },
                    };
                } else {
                    proof {
                        assert((self.w as int) * (self.h as int) <= 0xFFFE0001) by (nonlinear_arith)
                            requires
                                self.w <= 0xFFFF,
                                self.h <= 0xFFFF,
                        ;
                    }
                    let w64: u64 = (self.w as u64) * (self.h as u64);
                    if w64 > 0x0FFF_FFFF {
                        return Err(FaceError::OffsetTooLarge);
                    }
                    if file_data.len() != 3 * (w64 as usize) {
                        return Err(FaceError::Truncated);
                    }
                    img = crate::img::Img {
                        w: self.w as u32,
                        h: self.h as u32,
                        format: crate::img::ImgFormat::Argb8565,
                        data: file_data.clone(),
                        rle_header: None,
                    };
                    proof {
                        assert(img.data@ =~= file_data@);
                        assert((self.w as int) * (self.h as int) == w64 as int) by (nonlinear_arith)
                            requires
                                w64 == (self.w as int) * (self.h as int),
                        ;
                    }
                }
                if let Err(e) = img.convert_format(crate::img::ImgFormat::RleNew) {
                    return Err(e);
                }
                if img.data.len() > 0x200800 {
                    return Err(FaceError::OffsetTooLarge);
                }
                self.w = img.w as u16;
                self.h = img.h as u16;
                self.data = img.data;
                self.header = match img.rle_header {
                    Some(hd) => hd,
                    None => Vec::new(),
                };
                Ok(())
            },
            DumpFormat::BIN => {
                let got = ImgData::from_bin(
                    file_data.as_slice(),
                    0,
                    self.w as usize,
                    self.h as usize,
                );
                match got {
                    Ok(id) => {
                        *self = id;
                        Ok(())
                    },
                    Err(e) => Err(e),
                }
            },
        }
    }

    /// The bytes of this asset in the given export form: its raw compressed
    /// bytes, the decompressed packed pixels, or a bitmap interchange file.
    /// Fails when the compressed stream does not decode to the declared
    /// pixel area (or the declared area is beyond what the codec handles).
    pub fn export_img(&self, format: DumpFormat) -> (r: Result<Vec<u8>, FaceError>)
        ensures
            match r {
                Ok(b) => b@ == export_bytes_spec(*self, format) && export_ok_spec(*self, format)
                    && (format == DumpFormat::BIN
                    ==> b@ == self.header@ + self.data@) && (format
                    == DumpFormat::RAW ==> crate::img::rle_decode(self.data@) == Some(b@) && b@.len()
                    == 3 * (self.w as int) * (self.h as int)) && (format == DumpFormat::BMP ==> b@.len()
                    == crate::bmp_format::v5_size() + 4 * (self.w as int) * (self.h as int)
                    && crate::util::le16_at(b@, 0) == 0x4D42 && crate::img::rle_decode(
                    self.data@,
                ) is Some && b@.skip(crate::bmp_format::v5_size())
                    == crate::img::expand_8565_to_8888(
                    crate::img::rle_decode(self.data@).unwrap(),
                    (self.w as int) * (self.h as int),
                )),
                Err(_) => !export_ok_spec(*self, format) && format != DumpFormat::BIN && ((
                self.w as int) * (self.h as int)
                    > 0x0FFF_FFFF || self.header@.len() != 4 * self.h || crate::img::rle_decode(
                    self.data@,
                ) is None || crate::img::rle_decode(self.data@).unwrap().len() != 3 * (
                self.w as int) * (self.h as int)),
            },
    {
        if let DumpFormat::BIN = format {
            let mut b = self.header.clone();
            let dn = self.data.len();
            let mut j: usize = 0;
            while j < dn
                invariant
                    j <= dn,
                    dn == self.data@.len(),
                    b@ == self.header@ + self.data@.take(j as int),
                decreases dn - j,
            {
                b.push(self.data[j]);
                proof {
                    assert(b@ =~= self.header@ + self.data@.take(j + 1));
                }
                j = j + 1;
            }
            proof {
                assert(self.header@ + self.data@.take(dn as int) =~= self.header@ + self.data@);
            }
            return Ok(b);
        }
        proof {
            assert((self.w as int) * (self.h as int) <= 0xFFFE0001) by (nonlinear_arith)
                requires
                    self.w <= 0xFFFF,
                    self.h <= 0xFFFF,
            ;
        }
        let w64: u64 = (self.w as u64) * (self.h as u64);
        if w64 > 0x0FFF_FFFF {
            return Err(FaceError::OffsetTooLarge);
        }
        if self.header.len() != 4 * (self.h as usize) {
            return Err(FaceError::CorruptRle);
        }
        let img = crate::img::Img::from_img_data(self);
        proof {
            assert((self.w as int) * (self.h as int) == w64 as int) by (nonlinear_arith)
                requires
                    w64 == (self.w as int) * (self.h as int),
            ;
        }
        proof {
            assert(3 * (self.w as int) * (self.h as int) == 3 * ((self.w as int) * (
            self.h as int)) && 4 * (self.w as int) * (self.h as int) == 4 * ((self.w as int) * (
            self.h as int))) by (nonlinear_arith);
        }
        match format {
            DumpFormat::BMP => {
                let b = match img.to_bmp() {
                    Ok(b) => b,
                    Err(e) => {
                        return Err(e);
                    },
                };
                Ok(b)
            },
            DumpFormat::RAW => {
                let mut img2 = img;
                if let Err(e) = img2.convert_format(crate::img::ImgFormat::Argb8565) {
                    return Err(e);
                }
                Ok(img2.data)
            },
            DumpFormat::BIN => Err(FaceError::CorruptRle),
        }
    }
}


/// Whether this asset can be exported in the given form: the raw bytes
/// always can; the decompressed forms need a well-formed header table, a
/// pixel area within the codec's bounds, and a stream that decodes to
/// exactly that area.
pub open spec fn export_ok_spec(id: ImgData, format: DumpFormat) -> bool {
    format == DumpFormat::BIN || ((id.w as int) * (id.h as int) <= 0x0FFF_FFFF && id.header@.len()
        == 4 * id.h && (crate::img::rle_decode(id.data@) matches Some(p) && p.len() == 3 * (
    id.w as int) * (id.h as int)))
}

/// The bytes the export produces: the raw header table and payload, the
/// decompressed packed pixels, or a full bitmap interchange file.
pub open spec fn export_bytes_spec(id: ImgData, format: DumpFormat) -> Seq<u8> {
    match format {
        DumpFormat::BIN => id.header@ + id.data@,
        DumpFormat::RAW => crate::img::rle_decode(id.data@).unwrap(),
        DumpFormat::BMP => crate::bmp_format::v5_out_bytes(id.w as u32, id.h as u32)
            + crate::img::expand_8565_to_8888(
            crate::img::rle_decode(id.data@).unwrap(),
            (id.w as int) * (id.h as int),
        ),
    }
}

/// `j` indexes the first entry of `files` whose name is `name`.
pub open spec fn found_at(files: Seq<(String, Vec<u8>)>, name: Seq<char>, j: int) -> bool {
    0 <= j < files.len() && files[j].0@ == name && (forall|i: int|
        0 <= i < j ==> (#[trigger] files[i].0)@ != name)
}

/// How re-importing from a set of read files leaves an asset: without a
/// sane file name, or without a matching file, or when the matching file
/// does not convert, the asset keeps its prior data; otherwise it holds the
/// import of the first matching file, in the form its extension names.
pub open spec fn import_from_rel(pre: ImgData, post: ImgData, files: Seq<(String, Vec<u8>)>)
    -> bool {
    &&& ((pre.file_name is None || !sane_spec(pre.file_name.unwrap()@)) ==> post == pre)
    &&& (pre.file_name matches Some(nm) ==> (sane_spec(nm@) ==> {
        let fmt = ext_format_spec(nm@);
        &&& ((forall|i: int| 0 <= i < files.len() ==> (#[trigger] files[i].0)@ != nm@) ==> post
            == pre)
        &&& (forall|j: int| #[trigger] found_at(files, nm@, j) ==> (if import_ok_spec(
            pre,
            files[j].1@,
            fmt,
        ) {
            is_imported(pre, post, files[j].1@, fmt)
        } else {
            post == pre
        }))
    }))
}

impl ImgData {
    /// Export this asset as a (file name, bytes) pair appended to `out`,
    /// when it has a file name and its data converts to the requested
    /// form; otherwise leave `out` alone.  A failed asset is skipped,
    /// never fatal.
    pub fn export_to(&self, format: &DumpFormat, out: &mut Vec<(String, Vec<u8>)>)
        ensures
            self.file_name is None ==> *final(out) == *old(out),
            (self.file_name is Some && !export_ok_spec(*self, *format)) ==> *final(out) == *old(out),
            self.file_name matches Some(nm) ==> (export_ok_spec(*self, *format) ==> final(out)@.len()
                == old(out)@.len() + 1 && final(out)@.take(old(out)@.len() as int) == old(out)@
                && final(out)@.last().0@ == nm@ && final(out)@.last().1@ == export_bytes_spec(
                *self,
                *format,
            )),
    {
        match &self.file_name {
            None => {
            },
            Some(nm) => {
                match self.export_img(*format) {
                    Ok(b) => {
                        out.push((nm.clone(), b));
                        proof {
                            assert(out@.take(old(out)@.len() as int) =~= old(out)@);
                        }
                    },
                    Err(_) => {
                    },
                }
            },
        }
    }

    /// Re-import this asset from the entry of `files` whose name matches
    /// its own sane file name, in the form the extension names.  Without a
    /// sane name, a matching file, or convertible bytes, the asset keeps
    /// its prior data.
    pub fn import_from(&mut self, files: &Vec<(String, Vec<u8>)>)
        ensures
            import_from_rel(*old(self), *final(self), files@),
    {
        let fmt = match self.transfer_format() {
            Some(f) => f,
            None => {
                return ;
            },
        };
        let nm = match &self.file_name {
            Some(n) => n.clone(),
            None => {
                return ;
            },
        };
        let n = files.len();
        let mut i: usize = 0;
        while i < n
            invariant
                i <= n,
                n == files@.len(),
                *self == *old(self),
                old(self).file_name matches Some(m) && nm@ == m@,
                sane_spec(nm@),
                fmt == ext_format_spec(nm@),
                forall|k: int| 0 <= k < i ==> (#[trigger] files@[k].0)@ != nm@,
            decreases n - i,
        {
            let pair = &files[i];
            if pair.0 == nm {
                proof {
                    assert(found_at(files@, nm@, i as int));
                }
                let r = self.import_img(&pair.1, fmt);
                proof {
                    assert forall|j: int| #[trigger] found_at(files@, nm@, j) implies j
                        == i as int by {
                        if j < i {
                            assert((files@[j].0)@ != nm@);
                        } else if j > i {
                            assert((files@[i as int].0)@ != nm@);
                        }
                    }
                }
                return ;
            }
            i = i + 1;
        }
    }
}

} // verus!
