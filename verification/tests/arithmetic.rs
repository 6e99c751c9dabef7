use multipath_scheduler::binary64::Double;
use multipath_scheduler::estimate::share_of_window;

fn share_in_f64(window: u64, duration: u128, rtt: u128) -> u64 {
    let round_trips = duration as f64 / rtt as f64;
    (window as f64 * round_trips).round() as u64
}

fn next(state: &mut u64) -> u64 {
    *state = state
        .wrapping_mul(6364136223846793005)
        .wrapping_add(1442695040888963407);
    *state ^ (*state >> 29)
}

#[test]
fn integers_round_to_the_nearest_double() {
    for x in [
        1u128,
        2,
        3,
        1000,
        (1 << 53) - 1,
        1 << 53,
        (1 << 53) + 1,
        (1 << 53) + 2,
        (1 << 53) + 3,
        (1 << 54) - 1,
        (1 << 54) + 2,
        (1 << 54) + 6,
        (1 << 63) + 1024,
        (1 << 63) + 3072,
        (1 << 64) - 1025,
        (1 << 64) - 1024,
    ] {
        assert_eq!(Double::from_int(x).round(), (x as f64).round() as u64, "{}", x);
    }
    assert_eq!(Double::from_int((1 << 53) + 1).round(), 1 << 53);
    assert_eq!(Double::from_int((1 << 53) + 3).round(), (1 << 53) + 4);
}

#[test]
fn integers_beyond_64_bits_round_to_the_largest() {
    assert_eq!(Double::from_int((1 << 64) - 1).round(), u64::MAX);
    assert_eq!(Double::from_int(1 << 64).round(), u64::MAX);
    assert_eq!(Double::from_int(u128::MAX).round(), u64::MAX);
}

#[test]
fn quotients_round_half_up() {
    let two = Double::from_int(2);
    assert_eq!(Double::from_int(1).div(&two).round(), 1);
    assert_eq!(Double::from_int(3).div(&two).round(), 2);
    assert_eq!(Double::from_int(5).div(&two).round(), 3);
    assert_eq!(Double::from_int(1).div(&Double::from_int(3)).round(), 0);
    assert_eq!(Double::from_int(2).div(&Double::from_int(3)).round(), 1);
    assert_eq!(Double::from_int(1).div(&Double::from_int(u128::MAX)).round(), 0);
}

#[test]
fn products_are_rounded_once() {
    let a = Double::from_int((1 << 53) - 1);
    let expected = (((1u64 << 53) - 1) as f64 * 3.0).round() as u64;
    assert_eq!(a.mul(&Double::from_int(3)).round(), expected);
    assert_eq!(a.mul(&a).round(), u64::MAX);
}

#[test]
fn share_has_exact_values() {
    assert_eq!(share_of_window(14_600, 100_000, 10_000), 146_000);
    assert_eq!(share_of_window(1_000, 1, 3), 333);
    assert_eq!(share_of_window(1_000, 2, 3), 667);
    assert_eq!(share_of_window(1, 1, 2), 1);
    assert_eq!(share_of_window(1 << 48, 6, 3), 1 << 49);
}

#[test]
fn share_of_nothing_is_nothing() {
    assert_eq!(share_of_window(0, 5, 7), share_in_f64(0, 5, 7));
    assert_eq!(share_of_window(5, 0, 7), share_in_f64(5, 0, 7));
    assert_eq!(share_of_window(0, 5, 0), share_in_f64(0, 5, 0));
    assert_eq!(share_of_window(5, 0, 0), share_in_f64(5, 0, 0));
    assert_eq!(share_of_window(0, 5, 7), 0);
    assert_eq!(share_of_window(5, 0, 0), 0);
}

#[test]
fn share_without_a_round_trip_time_is_the_largest() {
    assert_eq!(share_of_window(5, 7, 0), u64::MAX);
    assert_eq!(share_in_f64(5, 7, 0), u64::MAX);
}

#[test]
fn share_is_that_of_the_floating_point_unit() {
    let mut state: u64 = 42;
    for _ in 0..200_000 {
        let window = next(&mut state) >> (next(&mut state) % 64);
        let duration = (next(&mut state) >> (next(&mut state) % 64)) as u128;
        let rtt = (next(&mut state) >> (next(&mut state) % 64)) as u128;
        assert_eq!(
            share_of_window(window, duration, rtt),
            share_in_f64(window, duration, rtt),
            "{} {} {}",
            window,
            duration,
            rtt
        );
    }
}

#[test]
fn share_of_wide_durations_is_that_of_the_floating_point_unit() {
    let mut state: u64 = 7;
    for _ in 0..100_000 {
        let wide = |s: &mut u64| ((next(s) as u128) << 64 | next(s) as u128) >> (next(s) % 128);
        let window = next(&mut state) >> (next(&mut state) % 64);
        let duration = wide(&mut state);
        let rtt = wide(&mut state);
        assert_eq!(
            share_of_window(window, duration, rtt),
            share_in_f64(window, duration, rtt),
            "{} {} {}",
            window,
            duration,
            rtt
        );
    }
}

#[test]
fn share_is_within_the_bound() {
    let mut state: u64 = 99;
    for _ in 0..50_000 {
        let window = (next(&mut state) >> 34) as i128;
        let duration = (next(&mut state) >> 34) as i128;
        let rtt = (next(&mut state) >> 34) as i128 + 1;
        let exact = window * duration;
        let got = share_of_window(window as u64, duration as u128, rtt as u128) as i128 * rtt;
        let off = if got > exact { got - exact } else { exact - got };
        assert!((off << 50) <= exact + (rtt << 49));
    }
}
