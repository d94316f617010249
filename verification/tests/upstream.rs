//! Keys and their selection.

use ninehelius::config::{RpsConfig, UpstreamConfig};
use ninehelius::credits::MethodClass;
use ninehelius::upstream::{
    current_yyyymm, current_yyyymmdd, yyyymm, yyyymmdd, Pool, SecretString, Upstream,
};

fn cfg(name: &str, enabled: bool) -> UpstreamConfig {
    cfg_cap(name, enabled, 1_000_000)
}

fn cfg_cap(name: &str, enabled: bool, credit_cap: u64) -> UpstreamConfig {
    UpstreamConfig {
        name: name.into(),
        api_key: format!("key-{name}"),
        credit_cap,
        enabled,
    }
}

fn pool(cfgs: &[UpstreamConfig]) -> Pool {
    Pool::from_config(cfgs, &RpsConfig::default())
}

const NOW: u64 = 1_000_000_000_000;

#[test]
fn select_cycles_all_enabled() {
    let mut p = pool(&[cfg("a", true), cfg("b", true), cfg("c", true)]);
    let picks: Vec<String> = (0..3)
        .map(|_| {
            p.select(MethodClass::StandardRpc, 1, &[], NOW)
                .unwrap()
                .1
                .name
                .clone()
        })
        .collect();
    let mut sorted = picks.clone();
    sorted.sort();
    sorted.dedup();
    assert_eq!(sorted.len(), 3, "expected all keys used, got {picks:?}");
}

#[test]
fn select_skips_disabled() {
    let mut p = pool(&[cfg("a", false), cfg("b", true), cfg("c", false)]);
    for _ in 0..5 {
        assert_eq!(
            p.select(MethodClass::StandardRpc, 1, &[], NOW).unwrap().1.name,
            "b"
        );
    }
}

#[test]
fn select_skips_over_quota() {
    let mut p = pool(&[cfg_cap("a", true, 5), cfg_cap("b", true, 1_000_000)]);
    for _ in 0..6 {
        assert_eq!(
            p.select(MethodClass::StandardRpc, 10, &[], NOW).unwrap().1.name,
            "b"
        );
    }
}

#[test]
fn select_none_when_all_over_quota() {
    let mut p = pool(&[cfg_cap("a", true, 5), cfg_cap("b", true, 5)]);
    assert!(p.select(MethodClass::StandardRpc, 10, &[], NOW).is_none());
}

#[test]
fn select_honours_skip_set() {
    let mut p = pool(&[cfg("a", true), cfg("b", true)]);
    // Whatever index 0 maps to, skipping it must yield the other key.
    let (idx, name) = {
        let (idx, up) = p.select(MethodClass::StandardRpc, 1, &[], NOW).unwrap();
        (idx, up.name.clone())
    };
    let (_, other) = p.select(MethodClass::StandardRpc, 1, &[idx], NOW).unwrap();
    assert_ne!(name, other.name);
}

#[test]
fn select_skips_cooldown() {
    let mut p = pool(&[cfg("a", true), cfg("b", true)]);
    p.upstreams[0].trip_cooldown(NOW);
    p.upstreams[1].trip_cooldown(NOW);
    // Both cooling down → nothing selectable.
    assert!(p.select(MethodClass::StandardRpc, 1, &[], NOW).is_none());
    // Far in the future, cooldowns have elapsed.
    assert!(p
        .select(MethodClass::StandardRpc, 1, &[], NOW + 60_000)
        .is_some());
}

#[test]
fn send_transaction_limited_to_one_rps_then_skips() {
    // Single key, sendTransaction bucket = 1 RPS. Second immediate call has
    // no token, so selection returns None.
    let mut p = pool(&[cfg("a", true)]);
    assert!(p
        .select(MethodClass::SendTransaction, 1, &[], NOW)
        .is_some());
    assert!(p
        .select(MethodClass::SendTransaction, 1, &[], NOW)
        .is_none());
}

#[test]
fn add_credits_reduces_remaining() {
    let mut up = Upstream::from_config(&cfg_cap("a", true, 100), &RpsConfig::default());
    assert_eq!(up.remaining_credits(), 100);
    up.add_credits(30);
    assert_eq!(up.remaining_credits(), 70);
    assert!(up.has_quota_for(70));
    assert!(!up.has_quota_for(71));
}

#[test]
fn cooldown_and_recovery() {
    let mut up = Upstream::from_config(&cfg("a", true), &RpsConfig::default());
    assert!(!up.in_cooldown(NOW));
    up.trip_cooldown(NOW);
    assert!(up.in_cooldown(NOW));
    up.note_success();
    // backoff reset, but the existing cooldown window still applies until it elapses
    assert!(up.in_cooldown(NOW));
    assert!(!up.in_cooldown(NOW + 60_000));
}

#[test]
fn select_goes_round_in_order() {
    let mut p = pool(&[cfg("a", true), cfg("b", true), cfg("c", true)]);
    let picks: Vec<usize> = (0..7)
        .map(|_| p.select(MethodClass::StandardRpc, 1, &[], NOW).unwrap().0)
        .collect();
    assert_eq!(picks, vec![0, 1, 2, 0, 1, 2, 0]);
    assert_eq!(p.cursor, 7);
}

#[test]
fn select_in_an_empty_pool_leaves_the_rotor() {
    let mut p = pool(&[]);
    assert!(p.select(MethodClass::StandardRpc, 0, &[], NOW).is_none());
    assert_eq!(p.cursor, 0);
    assert!(!p.has_available_capacity());
}

#[test]
fn select_survives_the_end_of_the_rotor() {
    let mut p = pool(&[cfg("a", true), cfg("b", true), cfg("c", true)]);
    p.cursor = usize::MAX;
    let i = p.select(MethodClass::StandardRpc, 1, &[], NOW).unwrap().0;
    assert_eq!(i, usize::MAX % 3);
    assert_eq!(p.cursor, 0);
    assert_eq!(p.select(MethodClass::StandardRpc, 1, &[], NOW).unwrap().0, 0);
}

#[test]
fn a_starved_key_passes_the_request_on() {
    let mut p = pool(&[cfg("a", true), cfg("b", true)]);
    let mut picks: Vec<Option<usize>> = Vec::new();
    for _ in 0..3 {
        picks.push(p.select(MethodClass::SendTransaction, 1, &[], NOW).map(|(i, _)| i));
    }
    assert_eq!(picks, vec![Some(0), Some(1), None]);
    // Another class has its own tokens.
    assert!(p.select(MethodClass::StandardRpc, 1, &[], NOW).is_some());
}

#[test]
fn quota_is_exact_at_the_cap() {
    let mut up = Upstream::from_config(&cfg_cap("a", true, 10), &RpsConfig::default());
    assert!(up.has_quota_for(10));
    assert!(!up.has_quota_for(11));
    assert_eq!(up.add_credits(10), 10);
    assert!(up.has_quota_for(0));
    assert!(!up.has_quota_for(1));
    assert_eq!(up.remaining_credits(), 0);
    // Past the cap nothing remains, and nothing wraps.
    assert_eq!(up.add_credits(5), 15);
    assert_eq!(up.remaining_credits(), 0);
    assert!(!up.has_quota_for(u64::MAX));
}

#[test]
fn months_and_days_are_counted_apart() {
    let mut up = Upstream::from_config(&cfg_cap("a", true, 100), &RpsConfig::default());
    up.add_credits(30);
    up.start_new_day();
    up.add_credits(5);
    assert_eq!(up.daily_used(), 5);
    assert_eq!(up.credits_used(), 35);
    up.reset_monthly(202607);
    assert_eq!(up.credits_used(), 0);
    assert_eq!(up.epoch_yyyymm, 202607);
    assert_eq!(up.credits_total(), 35);
    assert_eq!(up.daily_used(), 5);
    up.restore_monthly(202607, 12);
    assert_eq!(up.credits_used(), 12);
    up.restore_day_start(40);
    assert_eq!(up.day_start_total(), 40);
    assert_eq!(up.daily_used(), 0);
}

#[test]
fn counters_count() {
    let mut up = Upstream::from_config(&cfg("a", true), &RpsConfig::default());
    up.record_ok();
    up.record_ok();
    up.record_rate_limited();
    up.record_error();
    up.request_started();
    up.add_credits(9);
    let s = up.stat(NOW);
    assert_eq!(s.name, "a");
    assert_eq!(s.requests_ok, 2);
    assert_eq!(s.requests_rate_limited, 1);
    assert_eq!(s.rate_limit_hits, 1);
    assert_eq!(s.requests_error, 1);
    assert_eq!(s.in_flight, 1);
    assert_eq!(s.credits_used, 9);
    assert_eq!(s.credits_total, 9);
    assert_eq!(s.credit_cap, 1_000_000);
    assert_eq!(s.remaining, 999_991);
    assert_eq!(s.cooldown_ms_left, 0);
    assert!(s.enabled);
    up.request_ended();
    assert_eq!(up.in_flight, 0);
    up.restore_lifetime(1, 2, 3, 4, 5);
    assert_eq!(
        (
            up.credits_total(),
            up.requests_ok(),
            up.requests_rate_limited(),
            up.requests_error(),
            up.rate_limit_hits()
        ),
        (1, 2, 3, 4, 5)
    );
}

#[test]
fn cooldowns_grow_with_each_trip() {
    let mut up = Upstream::from_config(&cfg("a", true), &RpsConfig::default());
    let mut last = 0;
    for _ in 0..6 {
        up.trip_cooldown(NOW);
        let left = up.cooldown_remaining_ms(NOW);
        assert!(left > last);
        last = left;
    }
    up.trip_cooldown(NOW);
    assert_eq!(up.cooldown_remaining_ms(NOW), last);
    up.note_success();
    assert_eq!(up.backoff_step, 0);
    up.trip_cooldown(NOW);
    assert!(up.cooldown_remaining_ms(NOW) <= 1250);
}

#[test]
fn soonest_cooldown_rounds_up() {
    let mut p = pool(&[cfg("a", true), cfg("b", true), cfg("c", true)]);
    assert_eq!(p.soonest_cooldown_secs(NOW), None);
    p.upstreams[0].cooldown_until = NOW + 5001;
    p.upstreams[2].cooldown_until = NOW + 2000;
    assert_eq!(p.soonest_cooldown_secs(NOW), Some(2));
    assert_eq!(p.soonest_cooldown_secs(NOW + 1999), Some(1));
    assert_eq!(p.soonest_cooldown_secs(NOW + 2000), Some(4));
    assert_eq!(p.soonest_cooldown_secs(NOW + 5001), None);
}

#[test]
fn capacity_ignores_cooldown_but_not_quota() {
    let mut p = pool(&[cfg_cap("a", true, 1), cfg("b", false)]);
    assert!(p.has_available_capacity());
    p.upstreams[0].trip_cooldown(NOW);
    assert!(p.has_available_capacity());
    p.upstreams[0].add_credits(1);
    assert!(!p.has_available_capacity());
}

#[test]
fn find_takes_the_first_of_a_name() {
    let mut p = pool(&[cfg("a", true), cfg("b", true), cfg("b", false)]);
    p.upstreams[1].add_credits(3);
    assert_eq!(p.find("b").unwrap().credits_used(), 3);
    assert!(p.find("B").is_none());
    assert_eq!(p.stats(NOW).len(), 3);
    assert!(!p.stats(NOW)[2].enabled);
}

#[test]
fn secrets_do_not_show() {
    let s = SecretString::from("top secret".to_string());
    assert_eq!(s.expose(), "top secret");
    assert_eq!(s.redacted(), "\"<redacted>\"");
    let p = pool(&[cfg("a", true)]);
    assert_eq!(p.upstreams[0].api_key.expose(), "key-a");
}

#[test]
fn dates_are_encoded_in_decimal() {
    assert_eq!(yyyymm(2026, 6), 202606);
    assert_eq!(yyyymmdd(2026, 6, 25), 20260625);
    assert_eq!(yyyymm(-1, 1), u32::MAX - 98);
    let (month, day) = (current_yyyymm(), current_yyyymmdd());
    assert!(month >= 202401 && month % 100 >= 1 && month % 100 <= 12);
    assert!(day / 100 >= month);
    assert!(day % 100 >= 1 && day % 100 <= 31);
}

#[test]
fn rates_of_the_keys_add_up() {
    // Three keys with a burst of two each serve six at once.
    let mut p = pool(&[cfg("a", true), cfg("b", true), cfg("c", true)]);
    let mut served = [0; 3];
    for _ in 0..6 {
        served[p.select(MethodClass::Das, 10, &[], NOW).unwrap().0] += 1;
    }
    assert_eq!(served, [2, 2, 2]);
}

#[test]
fn no_credits_no_selection() {
    let mut p = pool(&[cfg_cap("a", true, 1), cfg_cap("b", false, 5)]);
    p.upstreams[0].add_credits(1);
    assert!(!p.has_available_capacity());
    assert!(p.select(MethodClass::StandardRpc, 1, &[], NOW).is_none());
    // A free request still finds its key.
    assert!(p.select(MethodClass::StandardRpc, 0, &[], NOW).is_some());
}
