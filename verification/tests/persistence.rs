//! Snapshots of usage and their restoration.

use ninehelius::config::{PersistenceConfig, RpsConfig, SnapshotErrorPolicy, UpstreamConfig};
use ninehelius::credits::Parsed;
use ninehelius::persistence::{
    capture_lifetime, restore_into, restore_lifetime_into, restore_month, Snapshot, Unreadable,
    UpstreamSnap,
};
use ninehelius::stats::{replay_to_prometheus, Stats};
use ninehelius::upstream::{current_yyyymm, Pool};

fn cfg(name: &str) -> UpstreamConfig {
    UpstreamConfig {
        name: name.into(),
        api_key: "k".into(),
        credit_cap: 1_000_000,
        enabled: true,
    }
}

fn snap(name: &str, credits_used: u64) -> UpstreamSnap {
    UpstreamSnap { name: name.into(), credits_used }
}

#[test]
fn restore_same_month_restores_usage() {
    let mut pool = Pool::from_config(&[cfg("a"), cfg("b")], &RpsConfig::default());
    let snap = Snapshot {
        epoch_yyyymm: current_yyyymm(),
        saved_at_ms: 0,
        upstreams: vec![
            UpstreamSnap {
                name: "a".into(),
                credits_used: 500,
            },
            UpstreamSnap {
                name: "b".into(),
                credits_used: 7,
            },
        ],
    };

    restore_into(&mut pool, &PersistenceConfig::default(), &Ok(Some(snap)));
    assert_eq!(pool.find("a").unwrap().credits_used(), 500);
    assert_eq!(pool.find("b").unwrap().credits_used(), 7);
}

#[test]
fn restore_old_month_starts_fresh() {
    let mut pool = Pool::from_config(&[cfg("a")], &RpsConfig::default());
    let snap = Snapshot {
        epoch_yyyymm: 200001, // ancient
        saved_at_ms: 0,
        upstreams: vec![UpstreamSnap {
            name: "a".into(),
            credits_used: 500,
        }],
    };

    restore_into(&mut pool, &PersistenceConfig::default(), &Ok(Some(snap)));
    assert_eq!(pool.find("a").unwrap().credits_used(), 0);
    // Epoch is initialized to the current month so no spurious reset later.
    assert_eq!(pool.find("a").unwrap().epoch_yyyymm, current_yyyymm());
}

#[test]
fn capture_then_restore_round_trips() {
    let mut pool = Pool::from_config(&[cfg("a"), cfg("b")], &RpsConfig::default());
    pool.upstreams[0].add_credits(123);
    pool.upstreams[1].add_credits(456);
    let snap = Snapshot::capture(&pool, 202606, 999);
    assert_eq!(snap.epoch_yyyymm, 202606);
    assert_eq!(snap.saved_at_ms, 999);
    assert_eq!(snap.upstreams.len(), 2);
    assert_eq!(snap.upstreams[0].credits_used, 123);

    // The pool has been reordered and extended since.
    let mut next = Pool::from_config(&[cfg("new"), cfg("b"), cfg("a")], &RpsConfig::default());
    restore_month(&mut next, SnapshotErrorPolicy::Cap, &Ok(Some(snap)), 202606);
    let used: Vec<u64> = next.upstreams.iter().map(|u| u.credits_used()).collect();
    assert_eq!(used, vec![0, 456, 123]);
    assert!(next.upstreams.iter().all(|u| u.epoch_yyyymm == 202606));
}

#[test]
fn the_first_row_of_a_name_counts() {
    let mut pool = Pool::from_config(&[cfg("a")], &RpsConfig::default());
    let snap = Snapshot {
        epoch_yyyymm: 202606,
        saved_at_ms: 0,
        upstreams: vec![snap("A", 1), snap("a", 2), snap("a", 3)],
    };
    restore_month(&mut pool, SnapshotErrorPolicy::Zero, &Ok(Some(snap)), 202606);
    assert_eq!(pool.upstreams[0].credits_used(), 2);
}

#[test]
fn no_snapshot_starts_fresh() {
    let mut pool = Pool::from_config(&[cfg("a")], &RpsConfig::default());
    pool.upstreams[0].add_credits(9);
    restore_month(&mut pool, SnapshotErrorPolicy::Cap, &Ok(None), 202606);
    assert_eq!(pool.upstreams[0].credits_used(), 0);
    assert_eq!(pool.upstreams[0].epoch_yyyymm, 202606);
}

#[test]
fn an_unreadable_snapshot_is_up_to_the_policy() {
    let mut pool = Pool::from_config(&[cfg("a")], &RpsConfig::default());
    restore_month(&mut pool, SnapshotErrorPolicy::Cap, &Err(Unreadable), 202606);
    assert_eq!(pool.upstreams[0].credits_used(), 1_000_000);
    assert!(!pool.has_available_capacity());
    restore_month(&mut pool, SnapshotErrorPolicy::Zero, &Err(Unreadable), 202606);
    assert_eq!(pool.upstreams[0].credits_used(), 0);
    assert!(pool.has_available_capacity());
}

#[test]
fn lifetime_counters_survive_a_restart() {
    let mut pool = Pool::from_config(&[cfg("a"), cfg("b")], &RpsConfig::default());
    let mut stats = Stats::new();
    stats.roll_month_if_changed(&mut pool, 202606);
    stats.roll_day_if_changed(&mut pool, 20260629, 0);
    pool.upstreams[0].add_credits(20);
    stats.roll_day_if_changed(&mut pool, 20260630, 0);
    pool.upstreams[0].add_credits(10);
    pool.upstreams[0].record_ok();
    pool.upstreams[0].record_rate_limited();
    pool.upstreams[0].record_error();
    pool.upstreams[0].request_started();
    pool.upstreams[0].trip_cooldown(5);
    stats.record_methods(&Parsed::Single { method: "getSlot".into() });
    stats.record_exhausted();
    let snap = Snapshot::capture(&pool, 202606, 1);
    let life = capture_lifetime(&pool, &stats);

    let mut next = Pool::from_config(&[cfg("new"), cfg("b"), cfg("a")], &RpsConfig::default());
    let mut revived = Stats::new();
    restore_month(&mut next, SnapshotErrorPolicy::Zero, &Ok(Some(snap)), 202606);
    restore_lifetime_into(&mut next, &mut revived, &life);
    let a = &next.upstreams[2];
    assert_eq!(a.credits_used(), 30);
    assert_eq!(a.credits_total(), 30);
    assert_eq!(a.day_start_total(), 20);
    assert_eq!(a.daily_used(), 10);
    assert_eq!(
        (a.requests_ok(), a.requests_rate_limited(), a.requests_error(), a.rate_limit_hits()),
        (1, 1, 1, 1)
    );
    // What is transient is not restored.
    assert_eq!((a.in_flight, a.cooldown_until, a.backoff_step), (0, 0, 0));
    assert_eq!(next.upstreams[0].credits_total(), 0);
    assert_eq!(revived.current_month, 0);
    assert_eq!(revived.current_day, 20260630);
    assert_eq!(revived.all_exhausted, 1);
    assert_eq!(revived.methods.get("getSlot"), Some(1));
    assert_eq!(revived.daily_history.len(), 1);
    assert_eq!(revived.daily_history[0].total_credits, 20);
    assert_eq!(revived.daily_history[0].upstreams[0].name, "a");
    // The replay at boot starts from there.
    let samples = replay_to_prometheus(&next, &revived);
    assert!(samples.iter().any(|s| s.value == 30 && s.labels[0].1 == "a"));

    // A day that ended while the gateway was down is closed with what was charged in it.
    revived.roll_day_if_changed(&mut next, 20260702, 0);
    assert_eq!(revived.daily_history[1].day, 20260630);
    assert_eq!(revived.daily_history[1].total_credits, 10);
}

#[test]
fn lifetime_counters_outlive_the_month() {
    let mut pool = Pool::from_config(&[cfg("a")], &RpsConfig::default());
    pool.upstreams[0].add_credits(30);
    let snap = Snapshot::capture(&pool, 202606, 1);
    let life = capture_lifetime(&pool, &Stats::new());
    let mut next = Pool::from_config(&[cfg("a")], &RpsConfig::default());
    restore_month(&mut next, SnapshotErrorPolicy::Zero, &Ok(Some(snap)), 202607);
    restore_lifetime_into(&mut next, &mut Stats::new(), &life);
    assert_eq!(next.upstreams[0].credits_used(), 0);
    assert_eq!(next.upstreams[0].credits_total(), 30);
}
