use mm_compression::{decrypt, deobfuscate, obfuscate, InputTooSmall};

#[test]
fn test_obfuscate_then_deobfuscate() {
    let source: &[u8] = "The quick brown fox jumps over the lazy dog".as_bytes();
    let result = deobfuscate(&obfuscate(source, 123456)).unwrap();
    assert_eq!(source, &result[..]);
}

#[test]
fn test_deobfuscate_basic() {
    let source = (123..140).collect::<Vec<u8>>();
    let expected: &[u8] = &[22, 203, 42, 122, 69, 220, 114, 34, 148, 54, 160, 111, 66];
    let result = deobfuscate(&source[..]).unwrap();
    assert_eq!(result, expected);
}

#[test]
fn test_deobfuscate_basic_no_remainder() {
    let source = (123..139).collect::<Vec<u8>>();
    let expected: &[u8] = &[22, 203, 42, 122, 69, 220, 114, 34, 148, 54, 160, 111];
    let result = deobfuscate(&source[..]).unwrap();
    assert_eq!(result, expected);
}

#[test]
fn test_deobfuscate_empty() {
    assert_eq!(InputTooSmall, deobfuscate(&[]).unwrap_err());
}

#[test]
fn test_deobfuscate_too_small() {
    assert_eq!(InputTooSmall, deobfuscate(&[1, 2]).unwrap_err());
}

#[test]
fn deobfuscate_three_bytes_is_too_small() {
    assert_eq!(InputTooSmall, deobfuscate(&[1, 2, 3]).unwrap_err());
}

#[test]
fn deobfuscate_seed_only_gives_nothing() {
    assert_eq!(deobfuscate(&[1, 2, 3, 4]).unwrap(), Vec::<u8>::new());
}

#[test]
fn obfuscate_prefixes_seed_and_changes_payload() {
    let payload: Vec<u8> = (0..37).collect();
    let hidden = obfuscate(&payload, 0xdead_beef);
    assert_eq!(hidden.len(), payload.len() + 4);
    assert_eq!(&hidden[..4], &0xdead_beefu32.to_le_bytes());
    assert_ne!(&hidden[4..], &payload[..]);
}

#[test]
fn round_trip_for_several_seeds_and_lengths() {
    for seed in [0u32, 1, 12345, 0x7654_3210, u32::MAX] {
        for len in 0..24usize {
            let payload: Vec<u8> = (0..len).map(|i| (i * 37 + 11) as u8).collect();
            assert_eq!(deobfuscate(&obfuscate(&payload, seed)).unwrap(), payload);
        }
    }
}

#[test]
fn obfuscate_is_deobfuscate_with_the_seed_kept() {
    let source = (123..140).collect::<Vec<u8>>();
    let seed = u32::from_le_bytes([123, 124, 125, 126]);
    assert_eq!(obfuscate(&source[4..], seed), source_with_seed(&source));
}

fn source_with_seed(source: &[u8]) -> Vec<u8> {
    let mut r = source[..4].to_vec();
    r.extend(deobfuscate(source).unwrap());
    r
}

#[test]
fn decrypt_keeps_the_seed_in_front() {
    let source = (123..140).collect::<Vec<u8>>();
    let result = decrypt(&source);
    assert_eq!(&result[..4], &source[..4]);
    assert_eq!(&result[4..], &[22, 203, 42, 122, 69, 220, 114, 34, 148, 54, 160, 111, 66]);
}
