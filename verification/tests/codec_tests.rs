use jfif::bits::BitReader;
use jfif::dct::inverse_dct;
use jfif::dct::sums_to_pixels;
use jfif::entropy::decode_block;
use jfif::entropy::extend;
use jfif::errors::DecodeError;
use jfif::huffman::Table;
use jfif::quant::dequantize;
use jfif::zigzag::unzigzag;
use jfif::zigzag::zigzag;

const UNZIGZAG: [usize; 64] = [
    0, 1, 8, 16, 9, 2, 3, 10, 17, 24, 32, 25, 18, 11, 4, 5, 12, 19, 26, 33, 40, 48, 41, 34, 27,
    20, 13, 6, 7, 14, 21, 28, 35, 42, 49, 56, 57, 50, 43, 36, 29, 22, 15, 23, 30, 37, 44, 51, 58,
    59, 52, 45, 38, 31, 39, 46, 53, 60, 61, 54, 47, 55, 62, 63,
];

#[test]
fn zigzag_known_positions() {
    let natural: Vec<i32> = (0..64).collect();
    let zz = zigzag(natural);
    for k in 0..64 {
        assert_eq!(zz[k] as usize, UNZIGZAG[k]);
    }
}

#[test]
fn zigzag_round_trip_exact() {
    let natural: Vec<i32> = (0..64).map(|i| (i * 7 - 100) as i32).collect();
    let zz = zigzag(natural.clone());
    let back = unzigzag(&zz);
    assert_eq!(back, natural);
    let zz2 = zigzag(unzigzag(&zz));
    assert_eq!(zz2, zz);
}

#[test]
fn bitreader_msb_first() {
    let mut r = BitReader::new(vec![0b1010_0000]);
    assert_eq!(r.read_bit(), Ok(1));
    assert_eq!(r.read_bit(), Ok(0));
    assert_eq!(r.read_bit(), Ok(1));
    assert_eq!(r.read_bit(), Ok(0));
    assert_eq!(r.bits_consumed(), 4);
}

#[test]
fn bitreader_removes_stuffing() {
    let mut r = BitReader::new(vec![0xFF, 0x00, 0xAA]);
    assert_eq!(r.read_bits(16), Ok(0xFFAA));
    assert_eq!(r.bits_consumed(), 16);
}

#[test]
fn bitreader_marker_fails_next_read() {
    let mut r = BitReader::new(vec![0xFF, 0xD9]);
    assert_eq!(r.read_bits(8), Ok(0xFF));
    assert_eq!(r.read_bit(), Err(DecodeError::MalformedEntropyData));
}

#[test]
fn bitreader_truncated() {
    let mut r = BitReader::new(vec![0x12]);
    assert_eq!(r.read_bits(9), Err(DecodeError::TruncatedInput));
}

#[test]
fn huffman_round_trip_all_symbols() {
    // One 1-bit code (0) and two 2-bit codes (10, 11).
    let mut counts = [0u8; 16];
    counts[0] = 1;
    counts[1] = 2;
    let symbols = [0x0Au8, 0x0B, 0x0C];
    let table = Table::from_size_data_tables(&counts, &symbols).unwrap();
    let cases: [(u8, u8); 3] = [(0x00, 0x0A), (0x80, 0x0B), (0xC0, 0x0C)];
    for (byte, expected) in cases {
        let mut r = BitReader::new(vec![byte]);
        assert_eq!(table.decode_symbol(&mut r), Ok(expected));
    }
}

#[test]
fn huffman_rejects_overfull_length() {
    // Three codes of length one cannot exist.
    let mut counts = [0u8; 16];
    counts[0] = 3;
    let symbols = [1u8, 2, 3];
    assert!(matches!(
        Table::from_size_data_tables(&counts, &symbols),
        Err(DecodeError::MalformedEntropyData)
    ));
}

#[test]
fn huffman_rejects_symbol_count_mismatch() {
    let mut counts = [0u8; 16];
    counts[0] = 1;
    counts[1] = 1;
    let symbols = [1u8];
    assert!(matches!(
        Table::from_size_data_tables(&counts, &symbols),
        Err(DecodeError::MalformedEntropyData)
    ));
}

#[test]
fn huffman_decode_failure_is_malformed() {
    // Only code is "0"; a stream of sixteen 1 bits never matches.
    let mut counts = [0u8; 16];
    counts[0] = 1;
    let symbols = [0x05u8];
    let table = Table::from_size_data_tables(&counts, &symbols).unwrap();
    let mut r = BitReader::new(vec![0xEF, 0xEF, 0xEF]);
    assert_eq!(
        table.decode_symbol(&mut r),
        Err(DecodeError::MalformedEntropyData)
    );
}

#[test]
fn extend_category_two_values() {
    assert_eq!(extend(0, 2), -3);
    assert_eq!(extend(1, 2), -2);
    assert_eq!(extend(2, 2), 2);
    assert_eq!(extend(3, 2), 3);
}

#[test]
fn extend_bounds_and_symmetry() {
    for t in 1u8..=11 {
        let full: i32 = 1 << t;
        for v in 0..full as u16 {
            let e = extend(v, t);
            assert!(-(full - 1) <= e && e <= full - 1);
            let half = full / 2;
            if (v as i32) < half {
                assert!(e <= -half);
            } else {
                assert!(e >= half);
            }
            let mirror = extend((full - 1 - v as i32) as u16, t);
            assert_eq!(e, -mirror);
        }
    }
}

#[test]
fn decode_block_dc_and_eob() {
    let mut dc_counts = [0u8; 16];
    dc_counts[0] = 1;
    let dc = Table::from_size_data_tables(&dc_counts, &[0x02]).unwrap();
    let mut ac_counts = [0u8; 16];
    ac_counts[0] = 1;
    let ac = Table::from_size_data_tables(&ac_counts, &[0x00]).unwrap();
    // Bits: DC code "0", raw bits "10" (category 2, extends to 2), EOB "0".
    let mut r = BitReader::new(vec![0x4F]);
    let (zz, pred) = decode_block(&mut r, &dc, &ac, 0).unwrap();
    assert_eq!(pred, 2);
    assert_eq!(zz[0], 2);
    for k in 1..64 {
        assert_eq!(zz[k], 0);
    }
    assert_eq!(r.bits_consumed(), 4);
}

#[test]
fn decode_block_keeps_predictor() {
    let mut dc_counts = [0u8; 16];
    dc_counts[0] = 1;
    let dc = Table::from_size_data_tables(&dc_counts, &[0x02]).unwrap();
    let mut ac_counts = [0u8; 16];
    ac_counts[0] = 1;
    let ac = Table::from_size_data_tables(&ac_counts, &[0x00]).unwrap();
    let mut r = BitReader::new(vec![0x4F]);
    let (zz, pred) = decode_block(&mut r, &dc, &ac, 100).unwrap();
    assert_eq!(pred, 102);
    assert_eq!(zz[0], 102);
}

#[test]
fn dequantize_pointwise() {
    let mut coeffs = vec![0i32; 64];
    coeffs[0] = -3;
    coeffs[5] = 7;
    let mut table = vec![1u8; 64];
    table[0] = 16;
    table[5] = 10;
    let d = dequantize(&coeffs, &table);
    assert_eq!(d[0], -48);
    assert_eq!(d[5], 70);
    assert_eq!(d[6], 0);
}

#[test]
fn idct_flat_dc_block() {
    let mut coeffs = vec![0i32; 64];
    coeffs[0] = 64;
    let sums = inverse_dct(&coeffs);
    let pix = sums_to_pixels(&sums);
    for p in pix {
        assert_eq!(p, 136);
    }
}

#[test]
fn sums_to_pixels_rounds_shifts_clamps() {
    let mut sums = vec![0i64; 64];
    sums[0] = 0; // exactly 0.0 -> 128
    sums[1] = 67108864; // exactly 1.0 -> 129
    sums[2] = 33554432; // exactly 0.5 -> rounds up to 129
    sums[3] = -33554433; // just under -0.5 -> 127
    sums[4] = 560750930165760; // far above range -> 255
    sums[5] = -560750930165760; // far below range -> 0
    let pix = sums_to_pixels(&sums);
    assert_eq!(pix[0], 128);
    assert_eq!(pix[1], 129);
    assert_eq!(pix[2], 129);
    assert_eq!(pix[3], 127);
    assert_eq!(pix[4], 255);
    assert_eq!(pix[5], 0);
}

/// The canonical 8x8 sample matrix used by the end-to-end fixtures.
const SAMPLE: [u8; 64] = [
    52, 55, 61, 66, 70, 61, 64, 73, 63, 59, 55, 90, 109, 85, 69, 72, 62, 59, 68, 113, 144, 104,
    66, 73, 63, 58, 71, 122, 154, 106, 70, 69, 67, 61, 68, 104, 126, 88, 68, 70, 79, 65, 60, 70,
    77, 68, 58, 75, 85, 71, 64, 59, 55, 61, 65, 83, 87, 79, 69, 68, 65, 76, 78, 94,
];

/// The standard luminance quantization table, natural order.
const LUMINANCE: [u8; 64] = [
    16, 11, 10, 16, 24, 40, 51, 61, 12, 12, 14, 19, 26, 58, 60, 55, 14, 13, 16, 24, 40, 57, 69,
    56, 14, 17, 22, 29, 51, 87, 80, 62, 18, 22, 37, 56, 68, 109, 103, 77, 24, 35, 55, 64, 81, 104,
    113, 92, 49, 64, 78, 87, 103, 121, 120, 101, 72, 92, 95, 98, 112, 100, 103, 99,
];

/// Forward DCT, quantization and rounding: the test-side encoder.
fn encode_block(samples: &[u8; 64], quant: &[u8; 64]) -> Vec<i32> {
    let pi = std::f64::consts::PI;
    let mut coeffs = vec![0i32; 64];
    for v in 0..8 {
        for u in 0..8 {
            let mut s = 0.0f64;
            for y in 0..8 {
                for x in 0..8 {
                    s += (samples[8 * y + x] as f64 - 128.0)
                        * ((2 * x + 1) as f64 * u as f64 * pi / 16.0).cos()
                        * ((2 * y + 1) as f64 * v as f64 * pi / 16.0).cos();
                }
            }
            let cu = if u == 0 { 1.0 / 2.0f64.sqrt() } else { 1.0 };
            let cv = if v == 0 { 1.0 / 2.0f64.sqrt() } else { 1.0 };
            let f = 0.25 * cu * cv * s / quant[8 * v + u] as f64;
            coeffs[8 * v + u] = f.round() as i32;
        }
    }
    coeffs
}

/// The decode side of the fixtures: dequantize in zigzag order, restore
/// natural order, transform, assemble.
fn decode_pipeline(coeffs: Vec<i32>, quant: &[u8; 64]) -> Vec<u8> {
    let zz = zigzag(coeffs);
    let zz_quant = zigzag(quant.to_vec());
    let deq = dequantize(&zz, &zz_quant);
    let natural = unzigzag(&deq);
    let sums = inverse_dct(&natural);
    sums_to_pixels(&sums)
}

#[test]
fn idct_identity_quantization_round_trip() {
    let ones = [1u8; 64];
    let coeffs = encode_block(&SAMPLE, &ones);
    let pix = decode_pipeline(coeffs, &ones);
    let golden: [u8; 64] = [
        51, 55, 61, 66, 70, 61, 64, 73, 63, 59, 55, 90, 109, 85, 69, 72, 62, 59, 68, 113, 144,
        104, 66, 73, 63, 58, 71, 122, 154, 106, 70, 69, 68, 61, 68, 104, 126, 88, 68, 70, 79, 65,
        60, 70, 77, 68, 58, 75, 85, 71, 64, 59, 55, 61, 65, 83, 87, 79, 69, 68, 65, 77, 78, 94,
    ];
    for i in 0..64 {
        assert_eq!(pix[i], golden[i]);
        let err = (pix[i] as i32 - SAMPLE[i] as i32).abs();
        assert!(err <= 1, "sample {} off by {}", i, err);
    }
}

#[test]
fn end_to_end_luminance_fixture() {
    let coeffs = encode_block(&SAMPLE, &LUMINANCE);
    assert_eq!(coeffs[0], -26);
    assert_eq!(coeffs[1], -3);
    assert_eq!(coeffs[8], 0);
    let pix = decode_pipeline(coeffs, &LUMINANCE);
    let golden: [u8; 64] = [
        62, 65, 57, 60, 72, 63, 60, 82, 57, 55, 56, 82, 108, 87, 62, 71, 58, 50, 60, 111, 148,
        114, 67, 65, 65, 55, 66, 120, 155, 114, 68, 70, 70, 63, 67, 101, 122, 88, 60, 78, 71, 71,
        64, 70, 80, 62, 56, 81, 75, 82, 67, 54, 63, 65, 66, 83, 81, 94, 75, 54, 68, 81, 81, 87,
    ];
    let mut max_err = 0;
    for i in 0..64 {
        assert_eq!(pix[i], golden[i]);
        let err = (pix[i] as i32 - SAMPLE[i] as i32).abs();
        max_err = max_err.max(err);
    }
    assert!(max_err <= 15, "max error {}", max_err);
}
