use jfif::errors::DecodeError;
use jfif::jfif::classify_marker;
use jfif::jfif::u8s_to_u16;
use jfif::jfif::FrameComponentHeader;
use jfif::jfif::FrameHeader;
use jfif::jfif::JFIFImage;
use jfif::jfif::JFIFUnits;
use jfif::jfif::JFIFVersion;
use jfif::jfif::Marker;

/// SOI plus a 16-byte APP0 segment: version 1.1, units 1, density 72x72.
fn preamble() -> Vec<u8> {
    vec![
        0xFF, 0xD8, 0xFF, 0xE0, 0x00, 0x10, b'J', b'F', b'I', b'F', 0x00, 1, 1, 1, 0x00, 0x48,
        0x00, 0x48, 0, 0,
    ]
}

fn dqt_all_ones() -> Vec<u8> {
    let mut seg = vec![0xFF, 0xDB, 0x00, 0x43, 0x00];
    seg.extend(vec![1u8; 64]);
    seg
}

fn sof0_8x8() -> Vec<u8> {
    vec![0xFF, 0xC0, 0x00, 0x0B, 8, 0x00, 0x08, 0x00, 0x08, 1, 1, 0x11, 0]
}

/// A table with one 1-bit code for `symbol`.
fn dht(class_id: u8, symbol: u8) -> Vec<u8> {
    let mut seg = vec![0xFF, 0xC4, 0x00, 0x14, class_id, 1];
    seg.extend(vec![0u8; 15]);
    seg.push(symbol);
    seg
}

fn sos(table_ids: u8) -> Vec<u8> {
    vec![0xFF, 0xDA, 0x00, 0x08, 1, 1, table_ids, 0, 0x3F, 0]
}

/// A whole one-block grayscale stream: DC difference 2, then end of block.
fn tiny_jpeg() -> Vec<u8> {
    let mut v = preamble();
    v.extend(dqt_all_ones());
    v.extend(sof0_8x8());
    v.extend(dht(0x00, 0x02));
    v.extend(dht(0x10, 0x00));
    v.extend(sos(0x00));
    v.push(0x4F);
    v
}

#[test]
fn u8s_to_u16_is_big_endian() {
    assert_eq!(u8s_to_u16(&[0x12, 0x34]), 0x1234);
    assert_eq!(u8s_to_u16(&[0x00, 0x07]), 7);
}

#[test]
fn units_from_u8_exact() {
    assert_eq!(JFIFUnits::from_u8(1), Ok(JFIFUnits::NoUnits));
    assert_eq!(JFIFUnits::from_u8(2), Ok(JFIFUnits::DotsPerInch));
    assert_eq!(JFIFUnits::from_u8(3), Ok(JFIFUnits::DotsPerCm));
    assert_eq!(JFIFUnits::from_u8(0), Err(DecodeError::InvalidUnits));
    assert_eq!(JFIFUnits::from_u8(4), Err(DecodeError::InvalidUnits));
}

#[test]
fn version_from_bytes_exact() {
    assert_eq!(JFIFVersion::from_bytes(1, 1), Ok(JFIFVersion::V1_01));
    assert_eq!(
        JFIFVersion::from_bytes(1, 2),
        Err(DecodeError::UnsupportedVersion)
    );
    assert_eq!(
        JFIFVersion::from_bytes(2, 0),
        Err(DecodeError::UnsupportedVersion)
    );
}

#[test]
fn component_header_lookup() {
    let fh = FrameHeader {
        sample_precision: 8,
        num_lines: 8,
        samples_per_line: 8,
        image_components: 1,
        frame_components: vec![FrameComponentHeader {
            component_id: 1,
            horizontal_sampling_factor: 1,
            vertical_sampling_factor: 1,
            quantization_selector: 0,
        }],
    };
    assert_eq!(fh.component_header(1).unwrap().quantization_selector, 0);
    assert!(fh.component_header(2).is_none());
}

#[test]
fn classify_marker_offsets() {
    let v = vec![0xFF, 0xDB, 0x00, 0x99, 0xFF, 0x01];
    assert_eq!(classify_marker(&v, 0), Ok(Marker::Quantization));
    assert_eq!(
        classify_marker(&v, 2),
        Err(DecodeError::UnrecognizedMarker { offset: 2 })
    );
    assert_eq!(
        classify_marker(&v, 4),
        Err(DecodeError::UnrecognizedMarker { offset: 5 })
    );
}

#[test]
fn parse_short_buffer_is_truncated() {
    assert_eq!(
        JFIFImage::parse(vec![0xFF; 5]),
        Err(DecodeError::TruncatedInput)
    );
    assert_eq!(JFIFImage::parse(Vec::new()), Err(DecodeError::TruncatedInput));
}

#[test]
fn parse_header_mismatch() {
    let mut v = preamble();
    v[6] = b'X';
    assert_eq!(JFIFImage::parse(v), Err(DecodeError::HeaderMismatch));
    assert_eq!(
        JFIFImage::parse(vec![0u8; 16]),
        Err(DecodeError::HeaderMismatch)
    );
}

#[test]
fn parse_unsupported_version() {
    let mut v = preamble();
    v[11] = 2;
    v[12] = 0;
    assert_eq!(JFIFImage::parse(v), Err(DecodeError::UnsupportedVersion));
}

#[test]
fn parse_invalid_units() {
    let mut v = preamble();
    v[13] = 0;
    assert_eq!(JFIFImage::parse(v), Err(DecodeError::InvalidUnits));
    let mut v2 = preamble();
    v2[13] = 9;
    assert_eq!(JFIFImage::parse(v2), Err(DecodeError::InvalidUnits));
}

#[test]
fn parse_unknown_marker_offset() {
    let mut v = preamble();
    v.extend(vec![0xFF, 0x01, 0x00, 0x04, 0, 0]);
    assert_eq!(
        JFIFImage::parse(v),
        Err(DecodeError::UnrecognizedMarker { offset: 21 })
    );
    let mut v2 = preamble();
    v2.extend(vec![0x00, 0xDB, 0x00, 0x04, 0, 0]);
    assert_eq!(
        JFIFImage::parse(v2),
        Err(DecodeError::UnrecognizedMarker { offset: 20 })
    );
}

#[test]
fn parse_missing_huffman_table() {
    // DC selector 3 while only id 0 tables were defined.
    let mut v = preamble();
    v.extend(dqt_all_ones());
    v.extend(sof0_8x8());
    v.extend(dht(0x00, 0x02));
    v.extend(dht(0x10, 0x00));
    v.extend(sos(0x30));
    v.push(0x4F);
    assert_eq!(
        JFIFImage::parse(v),
        Err(DecodeError::MissingTable { id: 3 })
    );
}

#[test]
fn parse_missing_quantization_table() {
    let mut v = preamble();
    v.extend(sof0_8x8());
    v.extend(dht(0x00, 0x02));
    v.extend(dht(0x10, 0x00));
    v.extend(sos(0x00));
    v.push(0x4F);
    assert_eq!(
        JFIFImage::parse(v),
        Err(DecodeError::MissingTable { id: 0 })
    );
}

#[test]
fn parse_scan_before_frame() {
    let mut v = preamble();
    v.extend(dqt_all_ones());
    v.extend(dht(0x00, 0x02));
    v.extend(dht(0x10, 0x00));
    v.extend(sos(0x00));
    v.push(0x4F);
    assert_eq!(JFIFImage::parse(v), Err(DecodeError::HeaderMismatch));
}

#[test]
fn parse_restart_interval_unsupported() {
    let mut v = preamble();
    v.extend(vec![0xFF, 0xDD, 0x00, 0x04, 0x00, 0x10]);
    assert_eq!(JFIFImage::parse(v), Err(DecodeError::UnsupportedFeature));
}

#[test]
fn parse_multi_component_frame_unsupported() {
    let mut v = preamble();
    let mut sof = sof0_8x8();
    sof[9] = 3;
    v.extend(sof);
    assert_eq!(JFIFImage::parse(v), Err(DecodeError::UnsupportedFeature));
}

#[test]
fn parse_truncated_segment() {
    let mut v = preamble();
    // A quantization segment that declares more bytes than remain.
    v.extend(vec![0xFF, 0xDB, 0x00, 0x43, 0x00]);
    assert_eq!(JFIFImage::parse(v), Err(DecodeError::TruncatedInput));
}

#[test]
fn parse_tiny_image() {
    let img = JFIFImage::parse(tiny_jpeg()).unwrap();
    assert_eq!(img.width(), 8);
    assert_eq!(img.height(), 8);
    assert_eq!(img.version, JFIFVersion::V1_01);
    assert_eq!(img.units, JFIFUnits::NoUnits);
    assert_eq!(img.dimensions, (72, 72));
    assert_eq!(img.thumbnail_dimensions, (0, 0));
    assert_eq!(img.comment, None);
    assert!(!img.comment_invalid);
    assert_eq!(img.pixels.len(), 64);
    for &p in &img.pixels {
        assert_eq!(p, 128);
    }
}

#[test]
fn parse_image_data_replicates_gray() {
    let img = JFIFImage::parse(tiny_jpeg()).unwrap();
    let rgb = img.image_data();
    assert_eq!(rgb.len(), 64);
    for &(r, g, b) in &rgb {
        assert_eq!((r, g, b), (128, 128, 128));
    }
}

#[test]
fn parse_comment_recorded() {
    let mut v = preamble();
    v.extend(vec![0xFF, 0xFE, 0x00, 0x04, b'h', b'i']);
    v.extend(dqt_all_ones());
    v.extend(sof0_8x8());
    v.extend(dht(0x00, 0x02));
    v.extend(dht(0x10, 0x00));
    v.extend(sos(0x00));
    v.push(0x4F);
    let img = JFIFImage::parse(v).unwrap();
    assert_eq!(img.comment, Some("hi".to_string()));
    assert!(!img.comment_invalid);
}

#[test]
fn parse_invalid_comment_degrades() {
    let mut v = preamble();
    // 0xC3 0x28 is not valid UTF-8.
    v.extend(vec![0xFF, 0xFE, 0x00, 0x04, 0xC3, 0x28]);
    v.extend(dqt_all_ones());
    v.extend(sof0_8x8());
    v.extend(dht(0x00, 0x02));
    v.extend(dht(0x10, 0x00));
    v.extend(sos(0x00));
    v.push(0x4F);
    let img = JFIFImage::parse(v).unwrap();
    assert_eq!(img.comment, Some(String::new()));
    assert!(img.comment_invalid);
}

#[test]
fn parse_wide_quantization_table_unsupported() {
    let mut v = preamble();
    // 16-bit table precision is outside the supported subset.
    let mut dqt = dqt_all_ones();
    dqt[4] = 0x10;
    v.extend(dqt);
    assert_eq!(JFIFImage::parse(v), Err(DecodeError::UnsupportedFeature));
}

#[test]
fn parse_corrupt_huffman_counts() {
    let mut v = preamble();
    v.extend(dqt_all_ones());
    v.extend(sof0_8x8());
    // Three codes of length one cannot exist.
    let mut seg = vec![0xFF, 0xC4, 0x00, 0x16, 0x00, 3];
    seg.extend(vec![0u8; 15]);
    seg.extend(vec![1u8, 2, 3]);
    v.extend(seg);
    assert_eq!(JFIFImage::parse(v), Err(DecodeError::MalformedEntropyData));
}

#[test]
fn parse_truncated_entropy_stream() {
    // The scan declares a block but supplies no entropy data at all.
    let mut v = preamble();
    v.extend(dqt_all_ones());
    v.extend(sof0_8x8());
    v.extend(dht(0x00, 0x02));
    v.extend(dht(0x10, 0x00));
    v.extend(sos(0x00));
    assert_eq!(JFIFImage::parse(v), Err(DecodeError::TruncatedInput));
}

#[test]
fn parse_two_blocks_carries_predictor() {
    // A 16x8 image: two blocks side by side. The first block's DC difference
    // is +2; the second's is -2, so its DC relies on the carried predictor.
    let mut v = preamble();
    let mut dqt = vec![0xFF, 0xDB, 0x00, 0x43, 0x00];
    dqt.extend(vec![16u8; 64]);
    v.extend(dqt);
    v.extend(vec![
        0xFF, 0xC0, 0x00, 0x0B, 8, 0x00, 0x08, 0x00, 0x10, 1, 1, 0x11, 0,
    ]);
    v.extend(dht(0x00, 0x02));
    v.extend(dht(0x10, 0x00));
    v.extend(sos(0x00));
    // Bits: "0 10 0" (DC +2, end of block), "0 01 0" (DC -2, end of block).
    v.push(0x42);
    let img = JFIFImage::parse(v).unwrap();
    assert_eq!(img.width(), 16);
    assert_eq!(img.height(), 8);
    for y in 0..8 {
        for x in 0..16 {
            let expected = if x < 8 { 132 } else { 128 };
            assert_eq!(img.pixels[y * 16 + x], expected, "at ({}, {})", x, y);
        }
    }
}

#[test]
fn parse_spectral_selection_unsupported() {
    let mut v = preamble();
    v.extend(dqt_all_ones());
    v.extend(sof0_8x8());
    v.extend(dht(0x00, 0x02));
    v.extend(dht(0x10, 0x00));
    // Spectral selection other than 0..63 is a progressive-style scan.
    v.extend(vec![0xFF, 0xDA, 0x00, 0x08, 1, 1, 0x00, 1, 0x3F, 0]);
    v.push(0x4F);
    assert_eq!(JFIFImage::parse(v), Err(DecodeError::UnsupportedFeature));
}
