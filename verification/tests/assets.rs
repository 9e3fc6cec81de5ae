use watchface::bmp_format::{BMPHeaderClassic, BMPHeaderV5};
use watchface::error::FaceError;
use watchface::img::Img;
use watchface::img_data::{ImgData, DumpFormat};
use watchface::sane_file_name::sane_file_name;

/// A 16-bit bitmap file, one pixel, with the given channel masks.
fn bmp16(masks: [u32; 3]) -> Vec<u8> {
    let mut b: Vec<u8> = Vec::new();
    b.extend_from_slice(&0x4D42u16.to_le_bytes());  // signature
    b.extend_from_slice(&68u32.to_le_bytes());      // file size
    b.extend_from_slice(&0u16.to_le_bytes());       // reserved
    b.extend_from_slice(&0u16.to_le_bytes());       // reserved
    b.extend_from_slice(&66u32.to_le_bytes());      // pixel data offset
    b.extend_from_slice(&40u32.to_le_bytes());      // header size
    b.extend_from_slice(&1u32.to_le_bytes());       // width
    b.extend_from_slice(&1u32.to_le_bytes());       // height (bottom-up)
    b.extend_from_slice(&1u16.to_le_bytes());       // planes
    b.extend_from_slice(&16u16.to_le_bytes());      // bits per pixel
    b.extend_from_slice(&3u32.to_le_bytes());       // bitfield compression
    b.extend_from_slice(&2u32.to_le_bytes());       // image data size
    b.extend_from_slice(&2835u32.to_le_bytes());
    b.extend_from_slice(&2835u32.to_le_bytes());
    b.extend_from_slice(&0u32.to_le_bytes());
    b.extend_from_slice(&0u32.to_le_bytes());
    for m in masks {
        b.extend_from_slice(&m.to_le_bytes());
    }
    b.extend_from_slice(&[0xFF, 0xFF]);             // the single pixel
    b
}

#[test]
fn bmp_with_standard_masks_is_accepted() {
    let bytes = bmp16([0xF800, 0x07E0, 0x001F]);
    let img = Img::from_bmp(&bytes).expect("standard 16-bit file should parse");
    assert_eq!(img.w, 1);
    assert_eq!(img.h, 1);
    // an opaque alpha byte, then the stored color word
    assert_eq!(img.data, vec![0xFF, 0xFF, 0xFF]);
}

#[test]
fn bmp_with_wrong_masks_is_rejected() {
    let bytes = bmp16([0xFF00, 0x00F0, 0x000F]);
    assert_eq!(Img::from_bmp(&bytes), Err(FaceError::BmpBadMasks));
}

#[test]
fn bmp_bad_headers_are_rejected() {
    assert_eq!(Img::from_bmp(&vec![0x42u8; 10]), Err(FaceError::BmpTooSmall));

    let mut bytes = bmp16([0xF800, 0x07E0, 0x001F]);
    bytes[0] = 0x41;
    assert_eq!(Img::from_bmp(&bytes), Err(FaceError::BmpBadSignature));

    let mut bytes = bmp16([0xF800, 0x07E0, 0x001F]);
    bytes[14] = 41;  // unrecognised header size
    assert_eq!(Img::from_bmp(&bytes), Err(FaceError::BmpBadHeader));

    let mut bytes = bmp16([0xF800, 0x07E0, 0x001F]);
    bytes[26] = 2;  // two planes
    assert_eq!(Img::from_bmp(&bytes), Err(FaceError::BmpUnusual));

    let mut bytes = bmp16([0xF800, 0x07E0, 0x001F]);
    bytes[28] = 8;  // unsupported depth
    assert_eq!(Img::from_bmp(&bytes), Err(FaceError::BmpBadDepth));

    let mut bytes = bmp16([0xF800, 0x07E0, 0x001F]);
    bytes[28] = 24;
    bytes[30] = 5;  // compression neither none nor bitfields
    assert_eq!(Img::from_bmp(&bytes), Err(FaceError::BmpCompressed));

    let mut bytes = bmp16([0xF800, 0x07E0, 0x001F]);
    bytes[22] = 0;  // zero height
    assert_eq!(Img::from_bmp(&bytes), Err(FaceError::BmpBadDataSize));
}

#[test]
fn bmp_writer_emits_fixed_extended_header() {
    let img = Img {
        w: 2,
        h: 1,
        format: watchface::img::ImgFormat::Argb8888,
        data: vec![1, 2, 3, 4, 5, 6, 7, 8],
        rle_header: None,
    };
    let b = img.to_bmp().expect("write");
    assert_eq!(b.len(), 138 + 8);
    assert_eq!(&b[0..2], &[0x42, 0x4D]);            // signature
    assert_eq!(u32::from_le_bytes([b[14], b[15], b[16], b[17]]), 124);  // extended header
    assert_eq!(u16::from_le_bytes([b[28], b[29]]), 32);  // truecolor
    let height = i32::from_le_bytes([b[22], b[23], b[24], b[25]]);
    assert_eq!(height, -1);                         // top-down row order
    // standard channel masks
    assert_eq!(u32::from_le_bytes([b[54], b[55], b[56], b[57]]), 0xFF0000);
    assert_eq!(u32::from_le_bytes([b[66], b[67], b[68], b[69]]), 0xFF000000);
    assert_eq!(&b[138..], &[1, 2, 3, 4, 5, 6, 7, 8]);
}

#[test]
fn bmp_header_structs_parse() {
    let bytes = bmp16([0xF800, 0x07E0, 0x001F]);
    let h = BMPHeaderClassic::from_bytes(&bytes).expect("parse");
    assert_eq!(h.sig, 0x4D42);
    assert_eq!(h.bpp, 16);
    assert_eq!(h.bmi_colors, [0xF800, 0x07E0, 0x001F]);
    assert_eq!(BMPHeaderClassic::from_bytes(&bytes[0..50]), Err(FaceError::BmpTooSmall));

    let v5 = BMPHeaderV5::new(4, 3, 32);
    let vb = v5.to_bytes();
    assert_eq!(vb.len(), 138);
    assert_eq!(v5.image_data_size, 48);
    assert_eq!(v5.file_size, 48 + 138);
}

#[test]
fn file_names_are_vetted() {
    assert!(sane_file_name("image_0.bmp"));
    assert!(sane_file_name("a"));
    assert!(!sane_file_name(""));
    assert!(!sane_file_name("pre/view.bmp"));
    assert!(!sane_file_name("pre\\view.bmp"));
    assert!(!sane_file_name("what?.bmp"));
    assert!(!sane_file_name("ends."));
    assert!(!sane_file_name("ends "));
    assert!(!sane_file_name("CON"));
    assert!(!sane_file_name("con"));
    assert!(!sane_file_name("NUL"));
    assert!(!sane_file_name("com7"));
    assert!(!sane_file_name("LPT1"));
    assert!(sane_file_name("CON.bmp"));
    assert!(sane_file_name("com0"));
}

#[test]
fn raw_import_exports_identically() {
    let pixels: Vec<u8> = vec![1, 2, 3, 4, 5, 6, 1, 2, 3, 4, 5, 6];
    let mut id = ImgData {
        header: Vec::new(),
        data: Vec::new(),
        w: 2,
        h: 2,
        file_name: Some(String::from("patch.raw")),
    };
    id.import_img(&pixels, DumpFormat::RAW).expect("import");
    assert_eq!(id.w, 2);
    assert_eq!(id.h, 2);
    assert_eq!(id.header.len(), 8);
    let out = id.export_img(DumpFormat::RAW).expect("export");
    assert_eq!(out, pixels);
}

#[test]
fn bin_export_is_header_then_payload() {
    let id = ImgData {
        header: vec![4, 0, 0x80, 0],
        data: vec![1, 9, 8, 7],
        w: 1,
        h: 1,
        file_name: None,
    };
    let out = id.export_img(DumpFormat::BIN).expect("export");
    assert_eq!(out, vec![4, 0, 0x80, 0, 1, 9, 8, 7]);
    // the blob form is the same bytes padded to a 4-byte boundary
    let blob = id.to_bin();
    assert_eq!(blob, vec![4, 0, 0x80, 0, 1, 9, 8, 7]);
}

#[test]
fn asset_file_name_rules() {
    let mut id = ImgData::default();
    id.set_file_name("first.bmp", false);
    assert_eq!(id.file_name.as_deref(), Some("first.bmp"));
    // a sane name is kept unless overwriting is asked for
    id.set_file_name("second.bmp", false);
    assert_eq!(id.file_name.as_deref(), Some("first.bmp"));
    id.set_file_name("third.bmp", true);
    assert_eq!(id.file_name.as_deref(), Some("third.bmp"));
    // an unsane stored name is always replaced
    id.file_name = Some(String::from("bad/name"));
    id.set_file_name("fixed.bmp", false);
    assert_eq!(id.file_name.as_deref(), Some("fixed.bmp"));
}

#[test]
fn bmp_import_compresses() {
    let bytes = bmp16([0xF800, 0x07E0, 0x001F]);
    let mut id = ImgData::default();
    id.file_name = Some(String::from("one.bmp"));
    id.import_img(&bytes, DumpFormat::BMP).expect("import");
    assert_eq!((id.w, id.h), (1, 1));
    // one row entry plus the compressed single-pixel row
    assert_eq!(id.header.len(), 4);
    let raw = id.export_img(DumpFormat::RAW).expect("decompress");
    assert_eq!(raw, vec![0xFF, 0xFF, 0xFF]);
}
