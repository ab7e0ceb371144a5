use threadcity::rng::Rng;

#[test]
fn first_draws_from_the_scheduler_seed() {
    let mut rng = Rng::new(0xdead_beef_cafe_babe);
    assert_eq!(rng.next_u32(), 2264545012);
    assert_eq!(rng.next_u32(), 919545820);
    assert_eq!(rng.next_u32(), 1784014064);
    assert_eq!(rng.next_u32(), 2094525253);
    assert_eq!(rng.next_u32(), 2353834934);
}

#[test]
fn draws_from_seed_zero() {
    let mut rng = Rng::new(0);
    // 0 * a + 1 = 1, whose upper half is 0
    assert_eq!(rng.next_u32(), 0);
    // 1 * a + 1 = 6364136223846793006
    assert_eq!(rng.next_u32(), 1481765933);
    assert_eq!(rng.next_u32(), 3232861391);
}

#[test]
fn step_wraps_around() {
    let mut rng = Rng::new(u64::MAX);
    assert_eq!(rng.next_u32(), 2813201362);
}

#[test]
fn same_seed_same_sequence() {
    let mut a = Rng::new(42);
    let mut b = Rng::new(42);
    for _ in 0..100 {
        assert_eq!(a.next_u32(), b.next_u32());
    }
}

#[test]
fn draw_is_upper_half_of_stepped_state() {
    let seed: u64 = 123456789;
    let expected = seed.wrapping_mul(6364136223846793005).wrapping_add(1) >> 32;
    let mut rng = Rng::new(seed);
    assert_eq!(rng.next_u32() as u64, expected);
}
