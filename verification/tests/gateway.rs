//! Configuration, error replies, metrics vocabulary and keep-alive.

use ninehelius::config::{
    default_max_body_bytes, default_max_retries, default_request_timeout_ms,
    default_upstream_base, Config, CostsConfig, GatewayConfig, PersistenceConfig, RpsConfig,
    SnapshotErrorPolicy, UpstreamConfig,
};
use ninehelius::credits::CostTable;
use ninehelius::error::ProxyError;
use ninehelius::keepalive::{
    interval_secs, ping_cost, ping_url, settle_ping, wants_ping, PingOutcome,
};
use ninehelius::metrics::{health_status, Metric, Sample};
use ninehelius::name_map::NameMap;
use ninehelius::upstream::Pool;

const NOW: u64 = 1_000_000_000_000;

fn gateway() -> GatewayConfig {
    GatewayConfig {
        bind: "127.0.0.1:0".into(),
        api_key: "gw".into(),
        upstream_base: default_upstream_base(),
        request_timeout_ms: default_request_timeout_ms(),
        max_retries: default_max_retries(),
        max_body_bytes: default_max_body_bytes(),
        keepalive_secs: 0,
    }
}

fn upstream(name: &str) -> UpstreamConfig {
    UpstreamConfig {
        name: name.into(),
        api_key: format!("key-{name}"),
        credit_cap: 10,
        enabled: true,
    }
}

fn config() -> Config {
    Config {
        gateway: gateway(),
        persistence: PersistenceConfig::default(),
        costs: CostsConfig::default(),
        rps: RpsConfig::default(),
        upstreams: vec![upstream("a"), upstream("b")],
    }
}

fn fault(c: &Config) -> String {
    c.validate().unwrap_err().message()
}

#[test]
fn defaults_are_those_of_the_free_tier() {
    let g = gateway();
    assert_eq!(g.upstream_base, "https://mainnet.helius-rpc.com");
    assert_eq!(g.request_timeout_ms, 15_000);
    assert_eq!(g.max_retries, 6);
    assert_eq!(g.max_body_bytes, 5 * 1024 * 1024);
    let p = PersistenceConfig::default();
    assert_eq!(p.path, "state/credits.snapshot.json");
    assert_eq!(p.interval_secs, 10);
    assert_eq!(p.on_snapshot_error, SnapshotErrorPolicy::Zero);
    let r = RpsConfig::default();
    assert_eq!(
        (r.standard_rpc, r.send_transaction, r.get_program_accounts, r.das, r.zk),
        (10, 1, 5, 2, 2)
    );
    assert_eq!(CostsConfig::default().default_rest_cost, 100);
}

#[test]
fn a_sound_configuration_is_accepted() {
    assert!(config().validate().is_ok());
}

#[test]
fn faults_are_found_in_order() {
    let mut c = config();
    c.gateway.max_retries = 0;
    assert_eq!(fault(&c), "gateway.max_retries must be >= 1");
    c.upstreams[1].credit_cap = 0;
    assert_eq!(fault(&c), "upstream 'b' has credit_cap = 0");
    c.upstreams[1].api_key = " \t".into();
    assert_eq!(fault(&c), "upstream 'b' has an empty api_key");
    c.upstreams[0].credit_cap = 0;
    assert_eq!(fault(&c), "upstream 'a' has credit_cap = 0");
    c.upstreams.clear();
    assert_eq!(fault(&c), "at least one [[upstreams]] entry is required");
    c.gateway.api_key = "CHANGE_ME_gateway_token".into();
    assert_eq!(fault(&c), "gateway.api_key is still the placeholder — set a real value");
    c.gateway.api_key = "\u{a0} \n".into();
    assert_eq!(fault(&c), "gateway.api_key must not be empty");
}

#[test]
fn error_replies() {
    let r = ProxyError::Unauthorized.into_response();
    assert_eq!((r.status, r.code, r.message.as_str()), (401, -32001, "unauthorized"));
    assert_eq!(r.retry_after_secs, None);
    let r = ProxyError::PayloadTooLarge.into_response();
    assert_eq!((r.status, r.code, r.message.as_str()), (413, -32600, "payload too large"));
    let r = ProxyError::AllUpstreamsExhausted { retry_after_secs: Some(3) }.into_response();
    assert_eq!((r.status, r.code, r.message.as_str()), (429, -32005, "all upstreams exhausted"));
    assert_eq!(r.retry_after_secs, Some(3));
    let r = ProxyError::AllUpstreamsExhausted { retry_after_secs: None }.into_response();
    assert_eq!(r.retry_after_secs, None);
    let r = ProxyError::BadGateway("refused".into()).into_response();
    assert_eq!((r.status, r.code, r.message.as_str()), (502, -32603, "bad gateway: refused"));
}

#[test]
fn metric_names() {
    let names: Vec<&str> = [
        Metric::RequestsTotal,
        Metric::CreditsConsumedTotal,
        Metric::CreditsRemaining,
        Metric::RateLimitHitsTotal,
        Metric::UpstreamErrorsTotal,
        Metric::Inflight,
        Metric::RpcMethodTotal,
        Metric::AllExhaustedTotal,
        Metric::RequestDurationSeconds,
        Metric::KeepaliveTotal,
    ]
    .iter()
    .map(|m| m.name())
    .collect();
    assert_eq!(
        names,
        vec![
            "ninehelius_requests_total",
            "ninehelius_credits_consumed_total",
            "ninehelius_credits_remaining",
            "ninehelius_rate_limit_hits_total",
            "ninehelius_upstream_errors_total",
            "ninehelius_inflight",
            "ninehelius_rpc_method_total",
            "ninehelius_all_exhausted_total",
            "ninehelius_request_duration_seconds",
            "ninehelius_keepalive_total",
        ]
    );
    let s = Sample::plain(Metric::Inflight, 4).with("upstream", "a").with("kind", "transient");
    assert_eq!(s.value, 4);
    assert_eq!(
        s.labels,
        vec![("upstream", "a".to_string()), ("kind", "transient".to_string())]
    );
}

#[test]
fn health_follows_capacity() {
    let mut pool = Pool::from_config(&[upstream("a")], &RpsConfig::default());
    assert_eq!(health_status(&pool), 200);
    pool.upstreams[0].add_credits(10);
    assert_eq!(health_status(&pool), 503);
}

#[test]
fn keepalive_is_off_at_zero() {
    let mut g = gateway();
    assert_eq!(interval_secs(&g), None);
    g.keepalive_secs = 30;
    assert_eq!(interval_secs(&g), Some(30));
}

#[test]
fn a_ping_costs_what_its_method_does() {
    assert_eq!(ping_cost(&CostTable::from_config(&CostsConfig::default())), 1);
    let mut c = CostsConfig::default();
    c.overrides.insert("getHealth".into(), 6);
    assert_eq!(ping_cost(&CostTable::from_config(&c)), 6);
}

#[test]
fn only_available_keys_are_pinged() {
    let mut pool = Pool::from_config(&[upstream("a")], &RpsConfig::default());
    assert!(wants_ping(&pool.upstreams[0], 10, NOW));
    assert!(!wants_ping(&pool.upstreams[0], 11, NOW));
    pool.upstreams[0].trip_cooldown(NOW);
    assert!(!wants_ping(&pool.upstreams[0], 1, NOW));
    assert!(wants_ping(&pool.upstreams[0], 1, NOW + 60_000));
    pool.upstreams[0].enabled = false;
    assert!(!wants_ping(&pool.upstreams[0], 1, NOW + 60_000));
}

#[test]
fn pings_are_settled() {
    let mut pool = Pool::from_config(&[upstream("a"), upstream("b")], &RpsConfig::default());
    assert_eq!(settle_ping(&mut pool, 1, Some(200), 2, NOW), PingOutcome::Charged(2));
    assert_eq!(settle_ping(&mut pool, 1, Some(500), 2, NOW), PingOutcome::Charged(4));
    assert_eq!(settle_ping(&mut pool, 1, None, 2, NOW), PingOutcome::Failed);
    assert_eq!(pool.upstreams[1].credits_used(), 4);
    assert_eq!(pool.upstreams[0].credits_used(), 0);
    assert!(!pool.upstreams[1].in_cooldown(NOW));
    assert_eq!(settle_ping(&mut pool, 1, Some(429), 2, NOW), PingOutcome::RateLimited);
    assert!(pool.upstreams[1].in_cooldown(NOW));
    assert_eq!(pool.upstreams[1].rate_limit_hits(), 1);
    assert_eq!(pool.upstreams[1].credits_used(), 4);
}

#[test]
fn ping_urls_carry_the_key_alone() {
    assert_eq!(
        ping_url("https://mainnet.helius-rpc.com", "k 1").as_deref(),
        Some("https://mainnet.helius-rpc.com/?api-key=k+1")
    );
    assert_eq!(
        ping_url("http://h:8899/rpc?x=1#frag", "k").as_deref(),
        Some("http://h:8899/rpc?api-key=k#frag")
    );
    assert_eq!(ping_url("no url", "k"), None);
}

#[test]
fn name_maps_keep_their_names_in_order() {
    let mut m: NameMap<u32> = NameMap::new();
    assert_eq!(m.insert("b".into(), 1), None);
    assert_eq!(m.insert("a".into(), 2), None);
    assert_eq!(m.insert("ab".into(), 3), None);
    assert_eq!(m.insert("é".into(), 4), None);
    assert_eq!(m.insert("b".into(), 5), Some(1));
    assert_eq!(m.len(), 4);
    let list: Vec<(&str, u32)> = (0..m.len()).map(|i| (m.name_at(i), m.value_at(i))).collect();
    assert_eq!(list, vec![("a", 2), ("ab", 3), ("b", 5), ("é", 4)]);
    assert_eq!(m.get("é"), Some(4));
    assert_eq!(m.get(""), None);
}
