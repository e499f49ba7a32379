use mm_compression::{checksum, decompress, obfuscate, CompressionType, DecompressError, Header};

fn container(seed: u32, unpacked_size: u32, checksum_uncompressed: u32, code: u32, payload: &[u8]) -> Vec<u8> {
    let mut plain = Vec::new();
    plain.extend(unpacked_size.to_le_bytes());
    plain.extend(checksum(payload).to_le_bytes());
    plain.extend(checksum_uncompressed.to_le_bytes());
    plain.extend(code.to_le_bytes());
    plain.extend_from_slice(payload);
    obfuscate(&plain, seed)
}

#[test]
fn decompress_test_too_short() {
    let decoded = decompress(&mut vec![0; 10]);
    match decoded.unwrap_err() {
        DecompressError::ContentTooSmall => (),
        x => panic!("Invalid error {:?}", x),
    }
}

#[test]
fn mod_test_too_short() {
    let decoded = decompress(&mut vec![0; 10]);
    match decoded.unwrap_err() {
        DecompressError::ContentTooSmall => (),
        x => panic!("Invalid error {:?}", x),
    }
}

#[test]
fn lib_test_too_short() {
    let decoded = decompress(&mut vec![0; 10]);
    match decoded.unwrap_err() {
        DecompressError::ContentTooSmall => (),
        x => panic!("Invalid error {:?}", x),
    }
}

#[test]
fn twenty_bytes_are_too_small_even_when_well_formed() {
    let c = container(5, 0, 0, 0, &[]);
    assert_eq!(c.len(), 20);
    assert!(matches!(decompress(&c), Err(DecompressError::ContentTooSmall)));
}

#[test]
fn uncompressed_container_returns_payload() {
    let payload = b"hello, world".to_vec();
    let c = container(0x1234_5678, payload.len() as u32, 0, 0, &payload);
    assert_eq!(decompress(&c).unwrap(), payload);
    let one = container(9, 1, 0, 0, &[42]);
    assert_eq!(one.len(), 21);
    assert_eq!(decompress(&one).unwrap(), vec![42]);
}

#[test]
fn rle_container_is_not_supported() {
    let c = container(77, 4, 0, 1, b"abcd");
    assert!(matches!(decompress(&c), Err(DecompressError::CompressionNotSupported)));
}

#[test]
fn unknown_code_is_invalid() {
    let c = container(77, 4, 0, 7, b"abcd");
    assert!(matches!(decompress(&c), Err(DecompressError::InvalidCompressionType)));
}

#[test]
fn lzss_container_decompresses_and_checks() {
    let stream = [160u8, 128, 4, 192];
    let c = container(31337, 6, 0x4141_4141, 2, &stream);
    let out = decompress(&c).unwrap();
    assert_eq!(out, b"AAAAAA".to_vec());
    assert_eq!(checksum(&out), 0x4141_4141);
}

#[test]
fn lzss_container_with_wrong_checksum() {
    let stream = [160u8, 128, 4, 192];
    let c = container(31337, 6, 0x4141_4140, 2, &stream);
    assert!(matches!(decompress(&c), Err(DecompressError::DecompressChecksumNonMatch)));
}

#[test]
fn lzss_container_with_short_stream() {
    let stream = [160u8, 128, 4, 192];
    let c = container(31337, 7, 0, 2, &stream);
    assert!(matches!(
        decompress(&c),
        Err(DecompressError::PrematureEnd { context: Some(3) })
    ));
}

#[test]
fn corrupt_payload_fails_deobfuscation_check() {
    let mut c = container(11, 12, 0, 0, b"hello, world");
    c[25] ^= 0x10;
    assert!(matches!(decompress(&c), Err(DecompressError::DeobfuscateChecksumNotMatch)));
}

#[test]
fn same_corrupt_input_gives_same_error_twice() {
    let mut c = container(11, 12, 0, 0, b"hello, world");
    c[21] ^= 0x01;
    let first = decompress(&c).unwrap_err();
    let second = decompress(&c).unwrap_err();
    assert_eq!(first.message(), second.message());
    assert!(matches!(first, DecompressError::DeobfuscateChecksumNotMatch));
    assert!(matches!(second, DecompressError::DeobfuscateChecksumNotMatch));
}

#[test]
fn header_from_bytes_reads_four_words() {
    let mut b = Vec::new();
    for w in [6u32, 0x0102_0304, 0xffff_ffff, 2] {
        b.extend(w.to_le_bytes());
    }
    let h = Header::from_bytes(&b).unwrap();
    assert_eq!(h.unpacked_size, 6);
    assert_eq!(h.checksum_deobfuscated, 0x0102_0304);
    assert_eq!(h.checksum_uncompressed, 0xffff_ffff);
    assert_eq!(h.compression, CompressionType::LZSS);
    b[12] = 9;
    assert_eq!(Header::from_bytes(&b).unwrap().compression, CompressionType::Unknown);
    b[12] = 0;
    assert_eq!(Header::from_bytes(&b).unwrap().compression, CompressionType::Uncompressed);
    b[12] = 1;
    assert_eq!(Header::from_bytes(&b).unwrap().compression, CompressionType::RLE);
}

#[test]
fn header_from_short_input_is_premature_end() {
    assert!(matches!(
        Header::from_bytes(&[0; 15]),
        Err(DecompressError::PrematureEnd { context: None })
    ));
}

#[test]
fn error_messages() {
    assert_eq!(DecompressError::ContentTooSmall.message(), "file contents are too small");
    assert_eq!(DecompressError::CompressionNotSupported.message(), "compression not supported");
    assert_eq!(DecompressError::InvalidCompressionType.message(), "invalid compression type");
    assert_eq!(
        DecompressError::PrematureEnd { context: None }.message(),
        "premature end of file"
    );
}
