use watchface::face::FaceN;
use watchface::elements::{Element, TimeNum, Unknown29};
use watchface::error::FaceError;
use watchface::img_data::{ImgData, DumpFormat};
use watchface::xy::XY;

/// A minimal container: header, no digit table, an empty element list, and
/// a 1x1 preview image in the blob.
fn minimal_container() -> Vec<u8> {
    let mut b: Vec<u8> = Vec::new();
    b.extend_from_slice(&1u16.to_le_bytes());   // api version
    b.extend_from_slice(&0u16.to_le_bytes());   // flags
    b.extend_from_slice(&20u32.to_le_bytes());  // preview blob offset
    b.extend_from_slice(&1u16.to_le_bytes());   // preview width
    b.extend_from_slice(&1u16.to_le_bytes());   // preview height
    b.extend_from_slice(&0u16.to_le_bytes());   // digit table offset: none
    b.extend_from_slice(&16u16.to_le_bytes());  // element table offset
    b.extend_from_slice(&[0, 0]);               // element terminator
    b.extend_from_slice(&[0, 0]);               // filler up to the blob
    // preview image at 20: one row entry (offset 4, length 4), then one
    // literal record holding the single pixel
    b.extend_from_slice(&[4, 0, 0x80, 0]);
    b.extend_from_slice(&[1, 9, 8, 7]);
    b
}

#[test]
fn empty_element_list_parses() {
    let bytes = minimal_container();
    let f = FaceN::from_bin(&bytes).expect("container should parse");
    assert_eq!(f.api_ver, 1);
    assert_eq!(f.unknown, 0);
    assert_eq!(f.digits.len(), 0);
    assert_eq!(f.elements.len(), 0);
    assert_eq!(f.preview_img_data.w, 1);
    assert_eq!(f.preview_img_data.h, 1);
    assert_eq!(f.preview_img_data.header, vec![4, 0, 0x80, 0]);
    assert_eq!(f.preview_img_data.data, vec![1, 9, 8, 7]);
}

#[test]
fn minimal_container_round_trips() {
    let bytes = minimal_container();
    let f = FaceN::from_bin(&bytes).expect("parse");
    let out = f.to_bin().expect("serialize");
    assert_eq!(out, bytes);
    let f2 = FaceN::from_bin(&out).expect("reparse");
    assert_eq!(f2.api_ver, f.api_ver);
    assert_eq!(f2.elements, f.elements);
    assert_eq!(f2.digits, f.digits);
    assert_eq!(f2.preview_img_data, f.preview_img_data);
}

/// A container with one element that carries no images.
fn container_with_unknown29() -> Vec<u8> {
    let mut b: Vec<u8> = Vec::new();
    b.extend_from_slice(&2u16.to_le_bytes());
    b.extend_from_slice(&7u16.to_le_bytes());
    b.extend_from_slice(&24u32.to_le_bytes());  // preview offset
    b.extend_from_slice(&1u16.to_le_bytes());
    b.extend_from_slice(&1u16.to_le_bytes());
    b.extend_from_slice(&0u16.to_le_bytes());
    b.extend_from_slice(&16u16.to_le_bytes());
    b.extend_from_slice(&[1, 29, 0x55]);        // one raw pass-through record
    b.extend_from_slice(&[0, 0]);               // terminator
    b.extend_from_slice(&[0, 0, 0]);            // filler up to offset 24
    b.extend_from_slice(&[4, 0, 0x80, 0]);
    b.extend_from_slice(&[1, 9, 8, 7]);
    b
}

#[test]
fn one_element_round_trips() {
    let bytes = container_with_unknown29();
    let f = FaceN::from_bin(&bytes).expect("parse");
    assert_eq!(f.elements.len(), 1);
    assert_eq!(f.elements[0], Element::Unknown29(Unknown29 { unknown: 0x55 }));
    let out = f.to_bin().expect("serialize");
    assert_eq!(out, bytes);
}

#[test]
fn unknown_element_type_is_fatal() {
    let mut bytes = container_with_unknown29();
    bytes[17] = 99;  // a type code with no known layout
    assert_eq!(FaceN::from_bin(&bytes), Err(FaceError::UnknownElementType));
}

#[test]
fn truncated_container_is_fatal() {
    assert_eq!(FaceN::from_bin(&[1, 0, 0, 0]).unwrap_err(), FaceError::Truncated);
    // a header whose element table points past the end
    let mut bytes = minimal_container();
    bytes.truncate(17);
    assert_eq!(FaceN::from_bin(&bytes), Err(FaceError::Truncated));
}

#[test]
fn preview_with_zero_height_is_fatal() {
    let mut bytes = minimal_container();
    bytes[10] = 0;  // preview height low byte
    bytes[11] = 0;
    assert_eq!(FaceN::from_bin(&bytes), Err(FaceError::ZeroHeight));
}

#[test]
fn element_size_mismatch_is_fatal_on_emit() {
    // a bar display declaring two images but holding three
    let bytes = minimal_container();
    let mut f = FaceN::from_bin(&bytes).expect("parse");
    let id = ImgData { header: vec![4, 0, 0x80, 0], data: vec![1, 9, 8, 7], w: 1, h: 1,
        file_name: None };
    f.elements.push(Element::BarDisplay(watchface::elements::BarDisplay {
        b_type: 0,
        count: 2,
        x: 0,
        y: 0,
        img_data: vec![id.clone(), id.clone(), id],
    }));
    assert_eq!(f.to_bin(), Err(FaceError::ElementSizeMismatch));
}

#[test]
fn short_digit_font_is_fatal_on_emit() {
    let bytes = minimal_container();
    let mut f = FaceN::from_bin(&bytes).expect("parse");
    f.digits.push(watchface::digits::Digits { img_data: Vec::new(), unknown: 0 });
    assert_eq!(f.to_bin(), Err(FaceError::HeaderSizeMismatch));
}

#[test]
fn digit_index_mismatch_is_fatal() {
    // a digit table whose first record declares index 1 instead of 0
    let mut b: Vec<u8> = Vec::new();
    b.extend_from_slice(&1u16.to_le_bytes());
    b.extend_from_slice(&0u16.to_le_bytes());
    b.extend_from_slice(&104u32.to_le_bytes()); // preview blob offset
    b.extend_from_slice(&1u16.to_le_bytes());
    b.extend_from_slice(&1u16.to_le_bytes());
    b.extend_from_slice(&16u16.to_le_bytes());   // digit table at 16
    b.extend_from_slice(&101u16.to_le_bytes());  // element table after one record
    b.extend_from_slice(&[0x01, 0x01]);          // sentinel
    b.push(1);                                   // wrong index byte
    b.extend_from_slice(&[0; 82]);
    b.extend_from_slice(&[0, 0, 0]);             // terminator and filler
    b.extend_from_slice(&[4, 0, 0x80, 0]);       // preview image
    b.extend_from_slice(&[1, 9, 8, 7]);
    assert_eq!(FaceN::from_bin(&b), Err(FaceError::DigitIndexMismatch));
}

#[test]
fn element_codec_time_num() {
    // a time display built by hand, serialized, and read back
    let t = TimeNum {
        digit_sets: vec![0, 0, 1, 1],
        xys: vec![
            XY { x: 10, y: 20 },
            XY { x: 30, y: 20 },
            XY { x: 50, y: 20 },
            XY { x: 70, y: 20 },
        ],
        unknown: vec![0; 12],
    };
    let body = t.to_bin();
    assert_eq!(body.len(), 32);
    let t2 = TimeNum::from_bin(&body, 0).expect("parse back");
    assert_eq!(t2, t);
}

#[test]
fn element_sizes_match_declared() {
    let one_img = ImgData { header: vec![4, 0, 0x80, 0], data: vec![1, 9, 8, 7], w: 1, h: 1,
        file_name: None };
    let mut blob: Vec<u8> = Vec::new();
    let mut off: u32 = 0;
    let e = Element::Image(watchface::elements::Image { x: 1, y: 2, img_data: one_img.clone() });
    let h = e.to_bin(&mut blob, &mut off).expect("emit");
    assert_eq!(h.len(), e.bin_size());
    assert_eq!(e.bin_size(), 14);
    assert_eq!(e.e_type(), 0);

    let e = Element::Dash(watchface::elements::Dash { img_data: one_img.clone() });
    let h = e.to_bin(&mut blob, &mut off).expect("emit");
    assert_eq!(h.len(), e.bin_size());
    assert_eq!(e.bin_size(), 10);
    assert_eq!(e.e_type(), 35);

    let e = Element::Weather(watchface::elements::Weather {
        count: 2,
        x: 5,
        y: 6,
        img_data: vec![one_img.clone(), one_img],
    });
    let h = e.to_bin(&mut blob, &mut off).expect("emit");
    assert_eq!(h.len(), e.bin_size());
    assert_eq!(e.bin_size(), 7 + 16);
    assert_eq!(e.e_type(), 27);
}

#[test]
fn blob_offsets_stay_aligned() {
    // every payload is padded to 4 bytes, so the running offset stays
    // a multiple of 4 whatever the payload sizes are
    let id = ImgData { header: vec![4, 0, 0xA0, 0], data: vec![1, 9, 8, 7, 2], w: 1, h: 1,
        file_name: None };
    let mut blob: Vec<u8> = Vec::new();
    let mut off: u32 = 0;
    let e = Element::Image(watchface::elements::Image { x: 0, y: 0, img_data: id });
    let h = e.to_bin(&mut blob, &mut off).expect("emit");
    assert_eq!(off % 4, 0);
    assert_eq!(blob.len(), 12);  // 9 payload bytes padded to 12
    assert_eq!(&blob[9..], &[0xFF, 0xFF, 0xFF]);  // filler is 0xFF, never zero
    assert_eq!(h.len(), 14);  // the 2-byte prefix and the 12-byte body
}

#[test]
fn generated_names_are_deterministic() {
    let n = FaceN::gen_name("image", &[3], &DumpFormat::BMP);
    assert_eq!(n, "image_3.bmp");
    let n = FaceN::gen_name("digit", &[1, 7], &DumpFormat::BIN);
    assert_eq!(n, "digit_1_7.bin");
    let n = FaceN::gen_name("preview", &[], &DumpFormat::RAW);
    assert_eq!(n, "preview.raw");
    let n = FaceN::gen_name("bar_display", &[12, 10], &DumpFormat::BMP);
    assert_eq!(n, "bar_display_12_10.bmp");
}

#[test]
fn generated_names_follow_per_kind_counters() {
    let bytes = minimal_container();
    let mut f = FaceN::from_bin(&bytes).expect("parse");
    let id = ImgData { header: vec![4, 0, 0x80, 0], data: vec![1, 9, 8, 7], w: 1, h: 1,
        file_name: None };
    f.digits.push(watchface::digits::Digits {
        img_data: vec![id.clone(); 10],
        unknown: 7,
    });
    f.elements.push(Element::Image(watchface::elements::Image { x: 0, y: 0,
        img_data: id.clone() }));
    f.elements.push(Element::Weather(watchface::elements::Weather {
        count: 2,
        x: 0,
        y: 0,
        img_data: vec![id.clone(), id.clone()],
    }));
    f.elements.push(Element::Image(watchface::elements::Image { x: 0, y: 0,
        img_data: id.clone() }));
    f.generate_file_names(&DumpFormat::BMP);
    assert_eq!(f.preview_img_data.file_name.as_deref(), Some("preview.bmp"));
    assert_eq!(f.digits[0].img_data[3].file_name.as_deref(), Some("digit_0_3.bmp"));
    match &f.elements[0] {
        Element::Image(e) => assert_eq!(e.img_data.file_name.as_deref(), Some("image_0.bmp")),
        _ => panic!("kind changed"),
    }
    match &f.elements[1] {
        Element::Weather(e) => {
            assert_eq!(e.img_data[0].file_name.as_deref(), Some("weather_0.bmp"));
            assert_eq!(e.img_data[1].file_name.as_deref(), Some("weather_1.bmp"));
        },
        _ => panic!("kind changed"),
    }
    match &f.elements[2] {
        // the image counter runs per kind, skipping other kinds in between
        Element::Image(e) => assert_eq!(e.img_data.file_name.as_deref(), Some("image_1.bmp")),
        _ => panic!("kind changed"),
    }
}

#[test]
fn write_imgs_lists_assets_in_traversal_order() {
    let bytes = minimal_container();
    let mut f = FaceN::from_bin(&bytes).expect("parse");
    let id = ImgData { header: vec![4, 0, 0x80, 0], data: vec![1, 9, 8, 7], w: 1, h: 1,
        file_name: None };
    f.elements.push(Element::Dash(watchface::elements::Dash { img_data: id }));
    f.generate_file_names(&DumpFormat::BIN);
    let out = f.write_imgs(&DumpFormat::BIN);
    assert_eq!(out.len(), 2);
    assert_eq!(out[0].0, "preview.bin");
    assert_eq!(out[0].1, vec![4, 0, 0x80, 0, 1, 9, 8, 7]);
    assert_eq!(out[1].0, "dash.bin");
    assert_eq!(out[1].1, vec![4, 0, 0x80, 0, 1, 9, 8, 7]);
}

#[test]
fn read_imgs_replaces_matching_assets_only() {
    let bytes = minimal_container();
    let mut f = FaceN::from_bin(&bytes).expect("parse");
    f.generate_file_names(&DumpFormat::RAW);
    // a replacement 1x1 raw pixel for the preview; an unrelated file is
    // ignored
    let files: Vec<(String, Vec<u8>)> = vec![
        (String::from("preview.raw"), vec![5, 6, 7]),
        (String::from("stray.raw"), vec![9, 9, 9]),
    ];
    f.read_imgs(&files);
    // the preview now holds the compressed replacement pixel
    let raw = f.preview_img_data.export_img(DumpFormat::RAW).expect("decompress");
    assert_eq!(raw, vec![5, 6, 7]);
}
