use watchface::img::{Img, ImgFormat, rgb565_to_888, rgb888_to_565, rle_decode_bytes,
    rle_encode_row, push_row_entry, read_row_entry};
use watchface::error::FaceError;

fn decode(data: &[u8], expected: usize) -> Vec<u8> {
    rle_decode_bytes(data, expected).expect("stream should decode")
}

#[test]
fn repeat_row_encodes_to_single_run() {
    // ten identical 3-byte pixels: one control byte 0x8A plus the pixel
    let mut row: Vec<u8> = Vec::new();
    for _ in 0..10 {
        row.extend_from_slice(&[0x12, 0x34, 0x56]);
    }
    let enc = rle_encode_row(&row);
    // one repeat record, then the always-emitted empty literal tail
    assert_eq!(enc, vec![0x8A, 0x12, 0x34, 0x56, 0x00]);
    let dec = decode(&enc, 30);
    assert_eq!(dec, row);
}

#[test]
fn alternating_row_encodes_as_literals() {
    // no adjacent equal pair: everything must be literal runs
    let mut row: Vec<u8> = Vec::new();
    for i in 0..8 {
        if i % 2 == 0 {
            row.extend_from_slice(&[1, 2, 3]);
        } else {
            row.extend_from_slice(&[4, 5, 6]);
        }
    }
    let enc = rle_encode_row(&row);
    let mut pos = 0;
    while pos < enc.len() {
        let cmd = enc[pos];
        assert!(cmd & 0x80 == 0, "repeat run found in an alternating row");
        pos += 1 + (cmd as usize) * 3;
    }
    let dec = decode(&enc, row.len());
    assert_eq!(dec, row);
}

#[test]
fn round_trip_various_rows() {
    let rows: Vec<Vec<u8>> = vec![
        vec![],
        vec![9, 9, 9],
        vec![1, 2, 3, 1, 2, 3],
        vec![1, 2, 3, 4, 5, 6],
        vec![7, 7, 7, 7, 7, 7, 7, 7, 7, 1, 2, 3],
        (0..255u8).flat_map(|i| vec![i, i, i]).collect(),
    ];
    for row in rows {
        let enc = rle_encode_row(&row);
        let dec = decode(&enc, row.len());
        assert_eq!(dec, row, "row of {} bytes did not round trip", row.len());
    }
}

#[test]
fn long_repeat_run_splits_at_cap() {
    // 200 identical pixels: runs are capped at 127 pixels each
    let mut row: Vec<u8> = Vec::new();
    for _ in 0..200 {
        row.extend_from_slice(&[8, 8, 8]);
    }
    let enc = rle_encode_row(&row);
    assert_eq!(enc[0], 0x80 | 127);
    let dec = decode(&enc, row.len());
    assert_eq!(dec, row);
}

#[test]
fn corrupt_stream_is_rejected() {
    // a repeat record cut short
    assert_eq!(rle_decode_bytes(&[0x85], 15), Err(FaceError::CorruptRle));
    // a literal record promising more bytes than the stream holds
    assert_eq!(rle_decode_bytes(&[5, 1, 2, 3], 15), Err(FaceError::CorruptRle));
    // a valid stream of the wrong total size
    assert_eq!(rle_decode_bytes(&[0x81, 1, 2, 3], 6), Err(FaceError::CorruptRle));
}

#[test]
fn row_entry_packs_and_unpacks() {
    let mut header: Vec<u8> = Vec::new();
    push_row_entry(&mut header, 0x1FFFFF, 0x7FF);
    push_row_entry(&mut header, 4, 4);
    push_row_entry(&mut header, 0x12345, 0x123);
    let (o0, l0) = read_row_entry(&header, 0);
    assert_eq!((o0, l0), (0x1FFFFF, 0x7FF));
    let (o1, l1) = read_row_entry(&header, 4);
    assert_eq!((o1, l1), (4, 4));
    let (o2, l2) = read_row_entry(&header, 8);
    assert_eq!((o2, l2), (0x12345, 0x123));
}

#[test]
fn color_conversion_exact_values() {
    // full white: every channel replicated into its low bits
    assert_eq!(rgb565_to_888(0xFF, 0xFF), [251, 255, 255]);
    // full black
    assert_eq!(rgb565_to_888(0x00, 0x00), [0, 0, 0]);
    // packing keeps each channel's high bits
    assert_eq!(rgb888_to_565(&[0xFF, 0xFF, 0xFF]), [0xFF, 0xFF]);
    assert_eq!(rgb888_to_565(&[0, 0, 0]), [0, 0]);
    // deterministic: the same input twice gives the same output
    assert_eq!(rgb565_to_888(0x12, 0x34), rgb565_to_888(0x12, 0x34));
    assert_eq!(rgb888_to_565(&[10, 20, 30]), rgb888_to_565(&[10, 20, 30]));
}

#[test]
fn image_compresses_and_decompresses() {
    // a 4x2 packed image through the compressed form and back
    let mut data: Vec<u8> = Vec::new();
    for p in 0..8u8 {
        data.extend_from_slice(&[p / 4, p, p]);
    }
    let mut img = Img { w: 4, h: 2, format: ImgFormat::Argb8565, data: data.clone(),
        rle_header: None };
    img.convert_format(ImgFormat::RleNew).expect("compress");
    assert_eq!(img.format, ImgFormat::RleNew);
    assert_eq!(img.rle_header.as_ref().map(|h| h.len()), Some(8));
    img.convert_format(ImgFormat::Argb8565).expect("decompress");
    assert_eq!(img.data, data);
}

#[test]
fn row_too_long_is_rejected() {
    // 700 alternating pixels compress to more than 2047 bytes in one row
    let mut data: Vec<u8> = Vec::new();
    for i in 0..700 {
        if i % 2 == 0 {
            data.extend_from_slice(&[1, 2, 3]);
        } else {
            data.extend_from_slice(&[4, 5, 6]);
        }
    }
    let mut img = Img { w: 700, h: 1, format: ImgFormat::Argb8565, data, rle_header: None };
    assert_eq!(img.convert_format(ImgFormat::RleNew), Err(FaceError::RowTooLong));
}

#[test]
fn truecolor_narrows_and_widens() {
    let mut img = Img {
        w: 2,
        h: 1,
        format: ImgFormat::Argb8888,
        data: vec![0xFF, 248, 252, 248, 0x80, 0, 0, 0],
        rle_header: None,
    };
    img.convert_format(ImgFormat::Argb8565).expect("pack");
    // alpha byte first, then the full-white 5/6/5 word
    assert_eq!(img.data, vec![0xFF, 0xFF, 0xFF, 0x80, 0, 0]);
    img.convert_format(ImgFormat::Argb8888).expect("expand");
    // each channel is widened with its high bits replicated
    assert_eq!(img.data, vec![251, 255, 255, 0xFF, 0, 0, 0, 0x80]);
}
