use mm_compression::{checksum, Checksummer};

fn words(ws: &[u32]) -> Vec<u8> {
    ws.iter().flat_map(|w| w.to_le_bytes()).collect()
}

#[test]
fn checksum_of_short_data_is_zero() {
    assert_eq!(checksum(&[]), 0);
    assert_eq!(checksum(&[0xff]), 0);
    assert_eq!(checksum(&[1, 2, 3]), 0);
}

#[test]
fn checksum_alternates_xor_and_add() {
    assert_eq!(checksum(&words(&[1, 1])), 2);
    assert_eq!(checksum(&words(&[5, 6, 7])), 12);
    assert_eq!(checksum(&words(&[0xffff_ffff, 1])), 0);
}

#[test]
fn checksum_depends_on_word_order() {
    assert_eq!(checksum(&words(&[7, 6, 5])), 8);
    assert_ne!(checksum(&words(&[5, 6, 7])), checksum(&words(&[7, 6, 5])));
}

#[test]
fn checksum_ignores_trailing_bytes() {
    let mut data = words(&[1, 2]);
    data.extend([9, 9, 9]);
    assert_eq!(checksum(&data), 3);
}

#[test]
fn checksum_reads_words_little_endian() {
    assert_eq!(checksum(&[0x01, 0x02, 0x03, 0x04]), 0x0403_0201);
}

#[test]
fn checksummer_matches_one_shot_over_any_split() {
    let data: Vec<u8> = (0..53u32).map(|i| (i * 91 + 7) as u8).collect();
    for split in 0..data.len() {
        let mut c = Checksummer::new();
        c.update(&data[..split]);
        c.update(&data[split..]);
        assert_eq!(c.value(), checksum(&data));
    }
    let mut c = Checksummer::new();
    for b in &data {
        c.update(&[*b]);
    }
    assert_eq!(c.value(), checksum(&data));
}
