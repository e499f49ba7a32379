use mm_compression::compression::decompress as compressed_reader;
use mm_compression::{lz_unpack, PrematureEnd};

// literal 'A', then a copy of 5 bytes from window offset 1
const RUN_OF_A: [u8; 4] = [160, 128, 4, 192];
// literals 'a' and 'b', then a copy of 6 bytes from window offset 1
const AB_REPEAT: [u8; 5] = [176, 216, 128, 2, 128];
// a copy of 2 bytes from window offset 0
const FROM_OFFSET_ZERO: [u8; 3] = [0, 0, 0];

#[test]
fn lz_unpack_literal_and_overlapping_copy() {
    assert_eq!(lz_unpack(&RUN_OF_A, 6).unwrap(), b"AAAAAA".to_vec());
    assert_eq!(lz_unpack(&AB_REPEAT, 8).unwrap(), b"abababab".to_vec());
}

#[test]
fn lz_unpack_offset_zero_reads_the_zeroed_window() {
    assert_eq!(lz_unpack(&FROM_OFFSET_ZERO, 2).unwrap(), vec![0, 0]);
}

#[test]
fn lz_unpack_stops_at_the_requested_size() {
    assert_eq!(lz_unpack(&RUN_OF_A, 3).unwrap(), b"AAA".to_vec());
    assert_eq!(lz_unpack(&AB_REPEAT, 5).unwrap(), b"ababa".to_vec());
    assert_eq!(lz_unpack(&RUN_OF_A, 0).unwrap(), Vec::<u8>::new());
    let mut longer = RUN_OF_A.to_vec();
    longer.extend([0xff; 10]);
    assert_eq!(lz_unpack(&longer, 6).unwrap(), b"AAAAAA".to_vec());
}

#[test]
fn lz_unpack_token_lengths_add_up() {
    // one literal (1 byte) and one copy with length field 3 (5 bytes)
    assert_eq!(lz_unpack(&RUN_OF_A, 6).unwrap().len(), 1 + 3 + 2);
}

#[test]
fn lz_unpack_premature_end() {
    assert_eq!(lz_unpack(&RUN_OF_A, 7).unwrap_err(), PrematureEnd { offset: 3 });
    assert_eq!(lz_unpack(&[], 1).unwrap_err(), PrematureEnd { offset: 0 });
    // a literal whose byte is cut short
    assert_eq!(lz_unpack(&[0x80], 1).unwrap_err(), PrematureEnd { offset: 0 });
}

#[test]
fn reader_resumes_a_copy_across_reads() {
    let mut reader = compressed_reader(RUN_OF_A.to_vec());
    assert_eq!(reader.read(4).unwrap(), b"A".to_vec());
    assert_eq!(reader.read(2).unwrap(), b"AA".to_vec());
    assert_eq!(reader.read(2).unwrap(), b"AA".to_vec());
    assert_eq!(reader.read(0).unwrap(), Vec::<u8>::new());
    assert_eq!(reader.read(9).unwrap(), b"A".to_vec());
    assert!(reader.read(1).is_err());
}

#[test]
fn reader_read_to_size_matches_lz_unpack() {
    let mut reader = compressed_reader(AB_REPEAT.to_vec());
    assert_eq!(reader.read_to_size(3).unwrap(), b"aba".to_vec());
    assert_eq!(reader.read_to_size(5).unwrap(), b"babab".to_vec());
}
