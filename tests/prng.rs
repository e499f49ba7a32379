use mm_compression::PRNG;

#[test]
fn deobfuscate_test_prng_state_iterate() {
    assert_eq!(PRNG::seed_iterate(0x7654_3210), (0xd17a_6109, 0x0a14_d17a));
    assert_eq!(PRNG::seed_iterate(0x0000_0000), (12345, 0));
    assert_eq!(PRNG::seed_iterate(0x0000_0001), (0x41c6_7ea6, 0x41c6));
    assert_eq!(PRNG::seed_iterate(0xffff_ffff), (0xbe39e1cc, 0x4e6cbe39));
}

#[test]
fn prng_same_seed_same_words() {
    let mut a = PRNG::new(0x1234_5678);
    let mut b = PRNG::new(0x1234_5678);
    for _ in 0..1000 {
        assert_eq!(a.next(), b.next());
    }
}

#[test]
fn prng_different_seeds_differ() {
    let mut a = PRNG::new(1);
    let mut b = PRNG::new(2);
    let wa: Vec<u32> = (0..16).map(|_| a.next()).collect();
    let wb: Vec<u32> = (0..16).map(|_| b.next()).collect();
    assert_ne!(wa, wb);
}

#[test]
fn prng_table_fixups_land_every_seventh_index() {
    for seed in [0u32, 1, 0x7654_3210, u32::MAX] {
        let table = PRNG::table_from_seed(seed);
        for k in 0..32u32 {
            let w = table[(3 + 7 * k) as usize];
            assert_eq!(w >> (31 - k), 1, "seed {} fix-up {}", seed, k);
        }
    }
}

#[test]
fn prng_table_fill_order_is_from_the_end() {
    let table = PRNG::table_from_seed(0);
    let (s1, w1) = PRNG::seed_iterate(0);
    let (_, w2) = PRNG::seed_iterate(s1);
    assert_eq!(table[249], w1);
    assert_eq!(table[248], w2);
    assert_eq!(w1, 0);
}

#[test]
fn prng_first_word_xors_the_two_cursors() {
    let table = PRNG::table_from_seed(42);
    let mut p = PRNG::new(42);
    assert_eq!(p.next(), table[0] ^ table[103]);
    assert_eq!(p.next(), table[1] ^ table[104]);
}

#[test]
fn prng_feedback_reaches_the_second_lap() {
    let table = PRNG::table_from_seed(7);
    let mut p = PRNG::new(7);
    let words: Vec<u32> = (0..250).map(|_| p.next()).collect();
    // the cursor ahead has wrapped onto words written in the first lap
    assert_eq!(words[147], table[147] ^ words[0]);
    let next = p.next();
    assert_eq!(next, words[0] ^ words[103]);
}
