use hordegrid::rng::Rng;

#[test]
fn when_same_seed_then_same_sequence() {
    let mut a = Rng::from_seed(42);
    let mut b = Rng::from_seed(42);
    for _ in 0..1000 {
        assert_eq!(a.next_u32(), b.next_u32());
    }
}

#[test]
fn when_zero_seed_then_not_stuck() {
    let mut r = Rng::from_seed(0);
    let first = r.next_u32();
    assert!((0..10).any(|_| r.next_u32() != first));
}

#[test]
fn when_below_then_in_range() {
    let mut r = Rng::from_seed(7);
    for _ in 0..10_000 {
        assert!(r.below(8) < 8);
        let v = r.range_i32(-3, 3);
        assert!((-3..=3).contains(&v));
    }
}

#[test]
fn different_seeds_give_different_streams() {
    let mut a = Rng::from_seed(1);
    let mut b = Rng::from_seed(2);
    let sa: Vec<u32> = (0..8).map(|_| a.next_u32()).collect();
    let sb: Vec<u32> = (0..8).map(|_| b.next_u32()).collect();
    assert_ne!(sa, sb);
}

#[test]
fn below_zero_is_zero() {
    let mut r = Rng::from_seed(3);
    assert_eq!(r.below(0), 0);
    assert_eq!(r.below(1), 0);
}
