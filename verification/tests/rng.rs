use umasim::rng::SplitmixRng;

#[test]
fn test_layer3_clone_isolation() {
    let mut a = SplitmixRng::new(0xDEAD_BEEF);
    let mut b = a;
    let first = b.next_u64();
    assert_eq!(a.counter(), 0);
    assert_eq!(b.counter(), 1);
    assert_eq!(a.next_u64(), first);
}

#[test]
fn streams_of_one_seed_agree() {
    let mut a = SplitmixRng::new(7);
    let mut b = SplitmixRng::new(7);
    for _ in 0..100 {
        assert_eq!(a.next_u64(), b.next_u64());
    }
    assert_eq!(a.counter(), 100);
    assert_ne!(SplitmixRng::new(7).next_u64(), SplitmixRng::new(8).next_u64());
}

#[test]
fn the_stream_of_zero_starts_with_known_numbers() {
    let mut r = SplitmixRng::new(0);
    assert_eq!(r.next_u64(), 0xE220_A839_7B1D_CDAF);
    assert_eq!(r.next_u64(), 0x6E78_9E6A_A1B9_65F4);
    assert_eq!(r.next_u64(), 0x06C4_5D18_8009_454F);
}
