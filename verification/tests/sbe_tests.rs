use shijim_core::sbe::{SbeEncoder, SbeError};

#[test]
fn test_write_header() {
    let buf = vec![0u8; 64];
    let mut encoder = SbeEncoder::new(buf);
    encoder.write_header(16, 2, 1, 0).unwrap();

    assert_eq!(encoder.cursor(), 8);
    let buf = encoder.into_inner();
    assert_eq!(
        &buf[0..8],
        &[0x10, 0x00, 0x02, 0x00, 0x01, 0x00, 0x00, 0x00]
    );
}

#[test]
fn test_buffer_overflow() {
    let buf = vec![0u8; 4];
    let mut encoder = SbeEncoder::new(buf);
    let res = encoder.write_u64(123);
    assert!(matches!(res, Err(SbeError::BufferOverflow)));
}

#[test]
fn test_write_group() {
    let buf = vec![0u8; 128];
    let mut encoder = SbeEncoder::new(buf);

    // Header (8) + Group Header (4) + 2 entries * (1 + 9 + 4 = 14) = 40 bytes
    encoder.write_header(16, 2, 1, 0).unwrap();

    // Entry body: type (u8) + price (decimal64: 2330.5 + i) + size (i32)
    encoder
        .write_group(14, 2, |i, enc| {
            enc.write_u8(i as u8)?;
            enc.write_decimal64_raw(23305 + 10 * i as i64, -1)?;
            enc.write_i32(10 * (i as i32 + 1))?;
            Ok(())
        })
        .unwrap();

    assert_eq!(encoder.cursor(), 40);

    let buf = encoder.into_inner();
    // Group header at offset 8: block size 14, count 2
    assert_eq!(&buf[8..12], &[0x0E, 0x00, 0x02, 0x00]);
    // Entry 1 at offset 12: type 0
    assert_eq!(buf[12], 0);
}

#[test]
fn test_group_overflow() {
    let buf = vec![0u8; 20]; // Too small for 2 * 14 + 4 = 32
    let mut encoder = SbeEncoder::new(buf);

    let res = encoder.write_group(14, 2, |_i, _enc| Ok(()));
    assert!(matches!(res, Err(SbeError::BufferOverflow)));
}

#[test]
fn test_u16_round_trip() {
    let mut encoder = SbeEncoder::new(vec![0u8; 16]);
    encoder.write_u16(0xBEEF).unwrap();
    let buf = encoder.into_inner();
    assert_eq!(u16::from_le_bytes([buf[0], buf[1]]), 0xBEEF);
}

#[test]
fn test_u32_round_trip() {
    let mut encoder = SbeEncoder::new(vec![0u8; 16]);
    encoder.write_u32(0xDEADBEEF).unwrap();
    let buf = encoder.into_inner();
    assert_eq!(
        u32::from_le_bytes([buf[0], buf[1], buf[2], buf[3]]),
        0xDEADBEEF
    );
}

#[test]
fn test_u64_round_trip() {
    let mut encoder = SbeEncoder::new(vec![0u8; 16]);
    encoder.write_u64(0x0123_4567_89AB_CDEF).unwrap();
    let buf = encoder.into_inner();
    let mut bytes = [0u8; 8];
    bytes.copy_from_slice(&buf[0..8]);
    assert_eq!(u64::from_le_bytes(bytes), 0x0123_4567_89AB_CDEF);
}

#[test]
fn test_u8_and_i32_round_trip() {
    let mut encoder = SbeEncoder::new(vec![0u8; 16]);
    encoder.write_u8(0x7F).unwrap();
    encoder.write_i32(-12345).unwrap();
    assert_eq!(encoder.cursor(), 5);
    let buf = encoder.into_inner();
    assert_eq!(buf[0], 0x7F);
    let mut bytes = [0u8; 4];
    bytes.copy_from_slice(&buf[1..5]);
    assert_eq!(i32::from_le_bytes(bytes), -12345);
}

#[test]
fn test_decimal64_round_trip() {
    // 2330.5 encoded exactly as mantissa 23305, exponent -1.
    let mut encoder = SbeEncoder::new(vec![0u8; 16]);
    encoder.write_decimal64_raw(23305, -1).unwrap();
    assert_eq!(encoder.cursor(), 9);
    let buf = encoder.into_inner();
    let mut bytes = [0u8; 8];
    bytes.copy_from_slice(&buf[0..8]);
    let mantissa = i64::from_le_bytes(bytes);
    let exponent = buf[8] as i8;
    assert_eq!(mantissa, 23305);
    assert_eq!(exponent, -1);
    let val = (mantissa as f64) * 10f64.powi(exponent as i32);
    assert!((val - 2330.5).abs() < 1e-9);
}

#[test]
fn test_group_header_prechecks_whole_group() {
    // Header fits but the entries would not: the pre-check fails fast.
    let mut encoder = SbeEncoder::new(vec![0u8; 10]);
    let res = encoder.write_group_header(4, 2);
    assert!(matches!(res, Err(SbeError::BufferOverflow)));
    assert_eq!(encoder.cursor(), 0);
}
