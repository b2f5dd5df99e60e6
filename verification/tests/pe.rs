use sw_video_lua::pe::{
    hex_bytes, parse_hex_bytes, pe_image_base, read_u16, read_u32, read_u64, signature_checks_runnable,
    verify_one_byte_check, verify_signature_bytes, ByteCheck, PeImage, SignatureCandidate,
    SignatureGroup,
};

#[test]
fn parses_hex_bytes() {
    assert_eq!(parse_hex_bytes("48 8b c4").unwrap(), vec![0x48, 0x8b, 0xc4]);
}

#[test]
fn parse_hex_bytes_errors() {
    assert_eq!(
        parse_hex_bytes("48 zz").unwrap_err(),
        "invalid hex byte zz: invalid digit found in string"
    );
    assert_eq!(
        parse_hex_bytes("100").unwrap_err(),
        "invalid hex byte 100: number too large to fit in target type"
    );
    assert_eq!(parse_hex_bytes("+").unwrap_err(), "invalid hex byte +: invalid digit found in string");
    assert_eq!(parse_hex_bytes("  +Ff\t0A\n").unwrap(), vec![0xff, 0x0a]);
    assert_eq!(parse_hex_bytes("   ").unwrap(), Vec::<u8>::new());
}

#[test]
fn hex_bytes_formats_two_digits() {
    assert_eq!(hex_bytes(&[0x48, 0x0b, 0xc4]), "48 0b c4");
    assert_eq!(hex_bytes(&[]), "");
    assert_eq!(parse_hex_bytes(&hex_bytes(&[0, 7, 255])).unwrap(), vec![0, 7, 255]);
}

#[test]
fn reads_little_endian() {
    let b = [1u8, 2, 3, 4, 5, 6, 7, 8, 9];
    assert_eq!(read_u16(&b, 0).unwrap(), 0x0201);
    assert_eq!(read_u32(&b, 1).unwrap(), 0x05040302);
    assert_eq!(read_u64(&b, 1).unwrap(), 0x0908070605040302);
    assert_eq!(read_u32(&b, 6).unwrap_err(), "PE read out of bounds at 0x6");
}

/// A minimal PE32+ image with one section mapping RVA 0x1000.. to file offset 0x200..
fn sample_image() -> Vec<u8> {
    let mut img = vec![0u8; 0x400];
    img[0] = b'M';
    img[1] = b'Z';
    let pe = 0x80usize;
    img[0x3c..0x40].copy_from_slice(&(pe as u32).to_le_bytes());
    img[pe..pe + 4].copy_from_slice(b"PE\0\0");
    img[pe + 6..pe + 8].copy_from_slice(&1u16.to_le_bytes());
    img[pe + 20..pe + 22].copy_from_slice(&0xf0u16.to_le_bytes());
    let opt = pe + 24;
    img[opt..opt + 2].copy_from_slice(&0x20bu16.to_le_bytes());
    img[opt + 24..opt + 32].copy_from_slice(&0x1_4000_0000u64.to_le_bytes());
    let sec = opt + 0xf0;
    img[sec + 8..sec + 12].copy_from_slice(&0x100u32.to_le_bytes());
    img[sec + 12..sec + 16].copy_from_slice(&0x1000u32.to_le_bytes());
    img[sec + 16..sec + 20].copy_from_slice(&0x200u32.to_le_bytes());
    img[sec + 20..sec + 24].copy_from_slice(&0x200u32.to_le_bytes());
    img[0x210] = 0x48;
    img[0x211] = 0x8b;
    img[0x212] = 0xc4;
    img
}

#[test]
fn parses_pe_headers_and_translates_addresses() {
    let img = sample_image();
    let pe = PeImage::parse(&img).unwrap();
    assert_eq!(pe.image_base, 0x1_4000_0000);
    assert_eq!(pe.sections.len(), 1);
    assert_eq!(pe.sections[0].virtual_address, 0x1000);
    assert_eq!(pe.sections[0].raw_offset, 0x200);
    assert_eq!(pe.va_to_raw(0x1_4000_1010), Some(0x210));
    assert_eq!(pe.va_to_raw(0x1_4000_11ff), Some(0x3ff));
    assert_eq!(pe.va_to_raw(0x1_4000_1200), None);
    assert_eq!(pe.va_to_raw(0x1000), None);
    assert_eq!(pe_image_base(&img).unwrap(), 0x1_4000_0000);
}

#[test]
fn rejects_malformed_images() {
    assert_eq!(PeImage::parse(&[0u8; 10]).unwrap_err(), "invalid PE: missing MZ header");
    let mut img = sample_image();
    img[0x80] = b'X';
    assert_eq!(PeImage::parse(&img).unwrap_err(), "invalid PE: missing PE signature");
    let mut img = sample_image();
    img[0x98] = 0x0b;
    img[0x99] = 0x01;
    assert_eq!(PeImage::parse(&img).unwrap_err(), "unsupported PE optional header magic 0x10b");
    let mut img = sample_image();
    img[0x86] = 0xff;
    assert_eq!(PeImage::parse(&img).unwrap_err(), "invalid PE: section table truncated");
}

fn check(va: &str, bytes: &str) -> ByteCheck {
    ByteCheck { va: Some(va.to_string()), bytes: Some(bytes.to_string()) }
}

#[test]
fn byte_checks_report_each_failure() {
    let img = sample_image();
    let pe = PeImage::parse(&img).unwrap();
    assert!(verify_one_byte_check(&img, &pe, &check("0x140001010", "48 8b c4")).is_ok());
    assert_eq!(
        verify_one_byte_check(&img, &pe, &check("0x140001010", "48 8b c5")).unwrap_err(),
        "VA 0x140001010 mismatch: expected 48 8b c5, got 48 8b c4"
    );
    assert_eq!(
        verify_one_byte_check(&img, &pe, &check("0x150000000", "00")).unwrap_err(),
        "VA 0x150000000 is outside mapped sections"
    );
    assert_eq!(
        verify_one_byte_check(&img, &pe, &check("0x1400011ff", "00 00")).unwrap_err(),
        "VA 0x1400011ff byte check extends beyond file"
    );
    assert_eq!(
        verify_one_byte_check(&img, &pe, &check("0xq", "00")).unwrap_err(),
        "invalid byte_check.va 0xq: invalid digit found in string"
    );
    assert_eq!(
        verify_one_byte_check(&img, &pe, &ByteCheck { va: None, bytes: None }).unwrap_err(),
        "missing byte_check.va"
    );
    assert_eq!(
        verify_one_byte_check(&img, &pe, &ByteCheck { va: Some("0x1".into()), bytes: None }).unwrap_err(),
        "missing byte_check.bytes"
    );
}

#[test]
fn signature_byte_checks_summarise() {
    let img = sample_image();
    let good = SignatureGroup {
        name: "lua".to_string(),
        values: Some(vec![
            SignatureCandidate { entry: Some("a".into()), byte_check: Some(check("0x140001010", "48 8b")) },
            SignatureCandidate { entry: None, byte_check: None },
        ]),
    };
    let groups = vec![good, SignatureGroup { name: "empty".into(), values: None }];
    assert!(signature_checks_runnable(&img, &groups));
    let summary = verify_signature_bytes(&img, &groups).unwrap();
    assert_eq!((summary.checked, summary.verified, summary.failed), (1, 1, 0));
    let bad = vec![SignatureGroup {
        name: "g".into(),
        values: Some(vec![
            SignatureCandidate { entry: None, byte_check: Some(check("0x140001010", "00")) },
            SignatureCandidate { entry: Some("e".into()), byte_check: Some(check("0x140001010", "48")) },
        ]),
    }];
    assert_eq!(
        verify_signature_bytes(&img, &bad).unwrap_err(),
        "1 of 2 signature byte checks failed: g:<missing-entry>: VA 0x140001010 mismatch: expected 00, got 48"
    );
}
