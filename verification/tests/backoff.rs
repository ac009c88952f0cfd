use neutrino_http::backoff::{
    after_wait, delay_of, initial_delay, jitter, next_backoff, now_ms, timestamp, BACKOFF_BASE, BACKOFF_CAP,
};

#[test]
fn next_backoff_doubles_then_caps() {
    let mut b = BACKOFF_BASE;
    let mut seq = vec![b];
    for _ in 0..20 {
        b = next_backoff(b);
        seq.push(b);
    }
    // Doubling: 1, 2, 4, 8, … seconds.
    assert_eq!(seq[0], 1_000);
    assert_eq!(seq[1], 2_000);
    assert_eq!(seq[2], 4_000);
    assert_eq!(seq[3], 8_000);
    // Eventually pinned at the cap and never exceeding it.
    assert_eq!(*seq.last().unwrap(), BACKOFF_CAP);
    assert!(seq.iter().all(|d| *d <= BACKOFF_CAP));
}

#[test]
fn jitter_stays_within_ceiling() {
    let ceiling: u64 = 8_000;
    for _ in 0..1000 {
        assert!(jitter(ceiling) <= ceiling);
    }
    assert_eq!(jitter(0), 0);
}

#[test]
fn jitter_is_not_the_ceiling_itself() {
    assert!((0..64).any(|_| jitter(u64::MAX) != u64::MAX));
}

#[test]
fn a_huge_ceiling_is_capped() {
    assert_eq!(next_backoff(u64::MAX), BACKOFF_CAP);
    assert_eq!(next_backoff(450_000), 900_000);
    assert_eq!(next_backoff(450_001), 900_000);
    assert_eq!(next_backoff(0), 0);
}

#[test]
fn a_kick_starts_from_the_floor() {
    assert_eq!(after_wait(BACKOFF_CAP, true), BACKOFF_BASE);
    assert_eq!(after_wait(10, false), 20);
}

#[test]
fn only_the_first_round_is_spread() {
    assert_eq!(delay_of(true, 1_234), 1_234);
    assert_eq!(delay_of(false, 1_234), 0);
    assert_eq!(initial_delay(false, 30_000), 0);
    for _ in 0..100 {
        assert!(initial_delay(true, 50) <= 50);
    }
}

#[test]
fn the_clock_is_read() {
    assert_eq!(timestamp(None), 0);
    assert_eq!(timestamp(Some(12_345)), 12_345);
    // Some time in this century.
    let now = now_ms();
    assert!(now > 1_600_000_000_000 && now < 4_102_444_800_000);
}
