//! Statistics, rollovers and the replay of totals.

use ninehelius::config::{RpsConfig, UpstreamConfig};
use ninehelius::credits::Parsed;
use ninehelius::metrics::Metric;
use ninehelius::stats::{capture_day, capture_month, replay_to_prometheus, Stats};
use ninehelius::upstream::Pool;

fn cfg(name: &str) -> UpstreamConfig {
    UpstreamConfig {
        name: name.into(),
        api_key: "k".into(),
        credit_cap: 1_000_000,
        enabled: true,
    }
}

fn pool() -> Pool {
    Pool::from_config(&[cfg("a"), cfg("b")], &RpsConfig::default())
}

#[test]
fn day_rollover_records_and_rebaselines() {
    let mut pool = pool();
    pool.upstreams[0].add_credits(30);
    pool.upstreams[1].add_credits(12);
    let mut stats = Stats::new();
    stats.current_day = 20260101;

    stats.roll_day_if_changed(&mut pool, 20260102, 90);

    {
        let h = &stats.daily_history;
        assert_eq!(h.len(), 1);
        assert_eq!(h[0].day, 20260101);
        assert_eq!(h[0].total_credits, 42); // 30 + 12
    }
    // The new day starts fresh; lifetime is untouched.
    assert_eq!(pool.upstreams[0].daily_used(), 0);
    pool.upstreams[0].add_credits(5);
    assert_eq!(pool.upstreams[0].daily_used(), 5);
    assert_eq!(pool.upstreams[0].credits_total(), 35);
}

#[test]
fn daily_history_trims_to_retention() {
    let pool = pool();
    let mut stats = Stats::new();
    for d in 1..=5 {
        stats.push_daily(capture_day(&pool, 20260100 + d), 3);
    }
    let h = &stats.daily_history;
    assert_eq!(h.len(), 3);
    assert_eq!(h[0].day, 20260103); // oldest retained
    assert_eq!(h[2].day, 20260105);
}

#[test]
fn no_retention_keeps_every_day() {
    let pool = pool();
    let mut stats = Stats::new();
    for d in 1..=5 {
        stats.push_daily(capture_day(&pool, 20260100 + d), 0);
    }
    assert_eq!(stats.daily_history.len(), 5);
    assert_eq!(stats.daily_history[0].day, 20260101);
}

#[test]
fn month_rollover_closes_the_month_once() {
    let mut pool = pool();
    pool.upstreams[0].add_credits(30);
    pool.upstreams[1].add_credits(12);
    let mut stats = Stats::new();

    // The first month is only noted: there is nothing to close.
    stats.roll_month_if_changed(&mut pool, 202606);
    assert_eq!(stats.current_month, 202606);
    assert!(stats.history.is_empty());
    assert_eq!(pool.upstreams[0].credits_used(), 0);

    pool.upstreams[1].add_credits(7);
    stats.roll_month_if_changed(&mut pool, 202606);
    assert!(stats.history.is_empty());
    assert_eq!(pool.upstreams[1].credits_used(), 7);

    stats.roll_month_if_changed(&mut pool, 202607);
    stats.roll_month_if_changed(&mut pool, 202607);
    assert_eq!(stats.history.len(), 1);
    assert_eq!(stats.history[0].month, 202606);
    assert_eq!(stats.history[0].total_credits, 7);
    assert_eq!(stats.history[0].upstreams[1].name, "b");
    assert_eq!(stats.history[0].upstreams[1].credits_used, 7);
    assert_eq!(pool.upstreams[1].credits_used(), 0);
    assert_eq!(pool.upstreams[1].epoch_yyyymm, 202607);
    assert_eq!(pool.upstreams[1].credits_total(), 19);
}

#[test]
fn first_day_is_only_noted() {
    let mut pool = pool();
    pool.upstreams[0].add_credits(30);
    let mut stats = Stats::new();
    stats.roll_day_if_changed(&mut pool, 20260101, 90);
    assert!(stats.daily_history.is_empty());
    assert_eq!(pool.upstreams[0].daily_used(), 0);
    pool.upstreams[0].add_credits(4);
    stats.roll_day_if_changed(&mut pool, 20260101, 90);
    assert_eq!(pool.upstreams[0].daily_used(), 4);
}

#[test]
fn methods_are_tallied() {
    let mut stats = Stats::new();
    stats.record_methods(&Parsed::Single { method: "getSlot".into() });
    stats.record_methods(&Parsed::Batch {
        methods: vec!["getSlot".into(), "getAsset".into(), "getSlot".into()],
    });
    stats.record_methods(&Parsed::NonJsonRpc);
    assert_eq!(stats.methods.get("getSlot"), Some(3));
    assert_eq!(stats.methods.get("getAsset"), Some(1));
    assert_eq!(stats.methods.get("other"), Some(1));
    assert_eq!(stats.methods.get("getslot"), None);
    let names: Vec<&str> = (0..stats.methods.len()).map(|i| stats.methods.name_at(i)).collect();
    assert_eq!(names, vec!["getAsset", "getSlot", "other"]);
}

#[test]
fn history_view_shows_open_and_closed_periods() {
    let mut pool = pool();
    let mut stats = Stats::new();
    stats.roll_month_if_changed(&mut pool, 202606);
    stats.roll_day_if_changed(&mut pool, 20260630, 2);
    pool.upstreams[0].add_credits(3);
    stats.roll_month_if_changed(&mut pool, 202607);
    stats.roll_day_if_changed(&mut pool, 20260701, 2);
    pool.upstreams[1].add_credits(8);
    let v = stats.history_view(&pool);
    assert_eq!(v.current_month, 202607);
    assert_eq!(v.current.month, 202607);
    assert_eq!(v.current.total_credits, 8);
    assert_eq!(v.history.len(), 1);
    assert_eq!(v.history[0].total_credits, 3);
    assert_eq!(v.current_day, 20260701);
    assert_eq!(v.today.total_credits, 8);
    assert_eq!(v.today.upstreams[0].credits_used, 0);
    assert_eq!(v.daily_history.len(), 1);
    assert_eq!(v.daily_history[0].total_credits, 3);
    assert_eq!(capture_month(&pool, 1).upstreams.len(), 2);
}

#[test]
fn replay_lists_the_totals() {
    let mut pool = pool();
    pool.upstreams[0].restore_lifetime(40, 1, 2, 3, 4);
    let mut stats = Stats::new();
    stats.record_methods(&Parsed::Single { method: "getSlot".into() });
    let samples = replay_to_prometheus(&pool, &stats);
    // Six for the key with credits, five for the one without, one for the method.
    assert_eq!(samples.len(), 12);
    assert_eq!(samples[0].metric, Metric::CreditsConsumedTotal);
    assert_eq!(samples[0].labels, vec![("upstream", "a".to_string())]);
    assert_eq!(samples[0].value, 40);
    let outcomes: Vec<(&str, u64)> =
        samples[1..4].iter().map(|s| (s.labels[1].1.as_str(), s.value)).collect();
    assert_eq!(outcomes, vec![("ok", 1), ("rate_limited", 2), ("error", 3)]);
    assert_eq!((samples[4].metric, samples[4].value), (Metric::RateLimitHitsTotal, 4));
    assert_eq!((samples[5].metric, samples[5].value), (Metric::CreditsRemaining, 1_000_000));
    assert_eq!(samples[6].metric, Metric::RequestsTotal);
    assert_eq!(samples[6].labels[0], ("upstream", "b".to_string()));
    assert_eq!(samples[11].metric, Metric::RpcMethodTotal);
    assert_eq!(samples[11].labels, vec![("method", "getSlot".to_string())]);

    stats.record_exhausted();
    stats.record_exhausted();
    let samples = replay_to_prometheus(&pool, &stats);
    assert_eq!(samples.len(), 13);
    assert_eq!(samples[12].metric, Metric::AllExhaustedTotal);
    assert_eq!(samples[12].value, 2);
    assert!(samples[12].labels.is_empty());
}

#[test]
fn every_credit_is_counted_once() {
    let mut pool = pool();
    let mut stats = Stats::new();
    stats.current_day = 20260101;
    for (i, credits, day) in
        [(0, 5, 20260101), (1, 7, 20260102), (1, 1, 20260102), (0, 9, 20260104), (0, 2, 20260103)]
    {
        pool.upstreams[i].add_credits(credits);
        stats.roll_day_if_changed(&mut pool, day, 0);
        let closed: u64 = stats.daily_history.iter().map(|r| r.total_credits).sum();
        let open: u64 = pool.upstreams.iter().map(|u| u.daily_used()).sum();
        let ever: u64 = pool.upstreams.iter().map(|u| u.credits_total()).sum();
        assert_eq!(closed + open, ever);
    }
    assert_eq!(stats.daily_history.len(), 3);
    let of_a: u64 = stats.daily_history.iter().map(|r| r.upstreams[0].credits_used).sum();
    assert_eq!(of_a, 16);
}
