use adc_oversampling_enob::rng::SplitMix64;

#[test]
fn known_sequence() {
    let mut r = SplitMix64::new(0);
    assert_eq!(r.next_u64(), 0xe220a8397b1dcdaf);
    assert_eq!(r.next_u64(), 0x6e789e6aa1b965f4);
    assert_eq!(r.next_u64(), 0x06c45d188009454f);
}

#[test]
fn reproducible_uniform() {
    let mut a = SplitMix64::new(42);
    let mut b = a.clone();
    for _ in 0..10000 {
        let bits = a.next_fraction_bits();
        assert_eq!(bits, b.next_fraction_bits());
        let x = bits as f64 * (1.0 / 9_007_199_254_740_992.0);
        assert!((0.0..1.0).contains(&x));
    }
    assert_ne!(a.next_u64(), SplitMix64::new(43).next_u64());
}

#[test]
fn fraction_bits_are_the_top_bits_of_the_output() {
    let mut a = SplitMix64::new(7);
    let mut b = SplitMix64::new(7);
    for _ in 0..1000 {
        let full = a.next_u64();
        let top = b.next_fraction_bits();
        assert_eq!(top, full >> 11);
        assert!(top < 1u64 << 53);
    }
}

#[test]
fn same_seed_same_stream_and_seeds_differ() {
    let mut a = SplitMix64::new(123);
    let mut b = SplitMix64::new(123);
    let mut c = SplitMix64::new(124);
    let mut differs = false;
    for _ in 0..100 {
        let x = a.next_u64();
        assert_eq!(x, b.next_u64());
        if x != c.next_u64() {
            differs = true;
        }
    }
    assert!(differs);
}

#[test]
fn distinct_seeds_give_distinct_first_outputs() {
    let mut firsts: Vec<u64> = (0..2000u64).map(|s| SplitMix64::new(s).next_u64()).collect();
    firsts.extend((0..2000u64).map(|s| SplitMix64::new(u64::MAX - s).next_u64()));
    let n = firsts.len();
    firsts.sort_unstable();
    firsts.dedup();
    assert_eq!(firsts.len(), n);
}

const GAMMA: u64 = 0x9e3779b97f4a7c15;

fn mix(z: u64) -> u64 {
    let z = (z ^ (z >> 30)).wrapping_mul(0xbf58476d1ce4e5b9);
    let z = (z ^ (z >> 27)).wrapping_mul(0x94d049bb133111eb);
    z ^ (z >> 31)
}

#[test]
fn draw_k_matches_the_closed_form_state() {
    for seed in [0u64, 42, u64::MAX] {
        let mut g = SplitMix64::new(seed);
        for k in 0..500u64 {
            let expected = mix(seed.wrapping_add((k + 1).wrapping_mul(GAMMA)));
            assert_eq!(g.next_u64(), expected);
        }
    }
}
