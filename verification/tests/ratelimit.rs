//! Token buckets and the backoff.

use ninehelius::config::RpsConfig;
use ninehelius::credits::MethodClass;
use ninehelius::ratelimit::{backoff_with_jitter, build_limiters, millis_to_u64, now_ms};

#[test]
fn backoff_grows_and_caps() {
    // Use a fixed `now` so jitter is deterministic.
    let now = 0;
    assert_eq!(backoff_with_jitter(0, now), 1000 - 250);
    assert_eq!(backoff_with_jitter(1, now), 2000 - 500);
    // Steps beyond 5 stay capped at 30s base.
    assert_eq!(backoff_with_jitter(9, now), 30_000 - 7_500);
}

#[test]
fn jitter_stays_within_band() {
    for now in [1u64, 7, 123, 999, 50_000] {
        let d = backoff_with_jitter(2, now); // base 4000, ±1000
        assert!((3000..=5000).contains(&d), "step2 now={now} -> {d}");
    }
}

#[test]
fn limiters_respect_zero_as_unlimited() {
    let rps = RpsConfig {
        standard_rpc: 0,
        send_transaction: 1,
        get_program_accounts: 5,
        das: 2,
        zk: 2,
    };
    let m = build_limiters(&rps);
    assert!(!m.contains_key(&MethodClass::StandardRpc));
    assert!(m.contains_key(&MethodClass::SendTransaction));
}

#[test]
fn every_step_of_the_backoff() {
    for (step, base) in [(0u32, 1000u64), (1, 2000), (2, 4000), (3, 8000), (4, 16_000), (5, 30_000)] {
        assert_eq!(backoff_with_jitter(step, 0), base - base / 4);
        assert_eq!(backoff_with_jitter(step, base / 2 - 1), base + base / 4 - 1);
        assert_eq!(backoff_with_jitter(step, base / 2), base - base / 4);
    }
    assert_eq!(backoff_with_jitter(u32::MAX, 1), 22_501);
}

#[test]
fn a_full_bucket_grants_its_rate_at_once() {
    let mut m = build_limiters(&RpsConfig {
        standard_rpc: 0,
        send_transaction: 1,
        get_program_accounts: 5,
        das: 2,
        zk: 2,
    });
    for _ in 0..100 {
        assert!(m.try_acquire(MethodClass::StandardRpc));
    }
    for _ in 0..5 {
        assert!(m.try_acquire(MethodClass::GetProgramAccounts));
    }
    assert!(m.try_acquire(MethodClass::SendTransaction));
    assert!(!m.try_acquire(MethodClass::SendTransaction));
    // The buckets of the other classes are their own.
    assert!(m.try_acquire(MethodClass::Das));
    assert!(m.try_acquire(MethodClass::Das));
    assert!(!m.try_acquire(MethodClass::Das));
    assert!(m.try_acquire(MethodClass::Zk));
}

#[test]
fn the_clock_counts_milliseconds() {
    assert_eq!(millis_to_u64(0x1_0000_0000_0000_0005), 5);
    assert_eq!(millis_to_u64(1_750_000_000_123), 1_750_000_000_123);
    let a = now_ms();
    // Some time after 2024.
    assert!(a > 1_704_067_200_000);
    assert!(now_ms() >= a);
}
