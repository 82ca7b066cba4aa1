use droplets::arith::{gcd_u64, lcm_u64};

#[test]
fn gcd_of_common_durations() {
    assert_eq!(gcd_u64(3840, 15360), 3840);
    assert_eq!(gcd_u64(12, 18), 6);
    assert_eq!(gcd_u64(7, 0), 7);
}

#[test]
fn lcm_of_common_durations() {
    assert_eq!(lcm_u64(4, 6), 12);
    assert_eq!(lcm_u64(0, 6), 0);
}
