use kcptun::clock::{clock, clock_at};
use kcptun::delay::{delay, delay_of, DELAY_LIMIT};
use std::time::{SystemTime, UNIX_EPOCH};

#[test]
fn milliseconds_of_a_point_in_time() {
    assert_eq!(clock_at(0, 0), 0);
    assert_eq!(clock_at(1, 999_999_999), 1999);
    assert_eq!(clock_at(12, 34_567_890), 12_034);
}

#[test]
fn milliseconds_go_round() {
    assert_eq!(clock_at(4_294_967, 295_999_999), u32::MAX);
    assert_eq!(clock_at(4_294_967, 296_000_000), 0);
    assert_eq!(clock_at(1_700_000_000, 5_000_000), (1_700_000_000_005u64 % (1 << 32)) as u32);
    assert_eq!(clock_at(-1, 0), u32::MAX - 999);
}

#[test]
fn the_clock_tells_the_time_of_the_machine() {
    let before = SystemTime::now().duration_since(UNIX_EPOCH).unwrap().as_millis() as u32;
    let now = clock();
    let after = SystemTime::now().duration_since(UNIX_EPOCH).unwrap().as_millis() as u32;
    assert!(now.wrapping_sub(before) <= after.wrapping_sub(before));
}

#[test]
fn waits_are_short() {
    assert_eq!(delay_of(0), 0);
    assert_eq!(delay_of(9), 9);
    assert_eq!(delay_of(10), 0);
    assert_eq!(delay_of(u64::MAX), 5);
    for _ in 0..1000 {
        assert!(delay() < DELAY_LIMIT);
    }
}

#[test]
fn waits_differ() {
    let first = delay();
    assert!((0..1000).any(|_| delay() != first));
}
