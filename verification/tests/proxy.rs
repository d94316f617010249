//! The way of a request through the gateway.

use ninehelius::config::{
    default_max_body_bytes, default_upstream_base, CostsConfig, GatewayConfig, RpsConfig,
    UpstreamConfig,
};
use ninehelius::credits::{parse_body, CostTable};
use ninehelius::error::ProxyError;
use ninehelius::metrics::health_status;
use ninehelius::proxy::{
    build_upstream_url, check_gateway_auth, forwards_header, is_base_url, is_gateway_auth_header,
    is_hop_by_hop, is_rate_limited, judge, let_in, replace_key, rewritten_query,
    signals_rate_limit, url_behind, Answer, Exchange, Step, Verdict,
};
use ninehelius::ratelimit::now_ms;
use ninehelius::stats::Stats;
use ninehelius::upstream::Pool;

const GET_SLOT: &[u8] = br#"{"jsonrpc":"2.0","id":1,"method":"getSlot"}"#;
const OK: &[u8] = br#"{"result":"ok"}"#;
const TOO_MANY: &[u8] =
    br#"{"jsonrpc":"2.0","id":1,"error":{"code":-32005,"message":"Too many requests"}}"#;

fn gateway() -> GatewayConfig {
    GatewayConfig {
        bind: "127.0.0.1:0".into(),
        api_key: "test-gw-key".into(),
        upstream_base: default_upstream_base(),
        request_timeout_ms: 15_000,
        max_retries: 6,
        max_body_bytes: default_max_body_bytes(),
        keepalive_secs: 0,
    }
}

fn pool_of(keys: &[&str], cap: u64) -> Pool {
    let cfgs: Vec<UpstreamConfig> = keys
        .iter()
        .enumerate()
        .map(|(i, k)| UpstreamConfig {
            name: format!("u{i}"),
            api_key: k.to_string(),
            credit_cap: cap,
            enabled: true,
        })
        .collect();
    Pool::from_config(&cfgs, &RpsConfig::default())
}

/// A gateway with its keys, in front of an upstream that is a function of the api-key.
struct World {
    gateway: GatewayConfig,
    costs: CostTable,
    pool: Pool,
    stats: Stats,
    contacted: Vec<String>,
}

impl World {
    fn new(keys: &[&str], cap: u64) -> World {
        World {
            gateway: gateway(),
            costs: CostTable::from_config(&CostsConfig::default()),
            pool: pool_of(keys, cap),
            stats: Stats::new(),
            contacted: Vec::new(),
        }
    }

    /// The status and the body that the client gets.
    fn post(
        &mut self,
        query: &str,
        body: &[u8],
        upstream: &dyn Fn(&str) -> Result<(u16, Vec<u8>), String>,
    ) -> (u16, Vec<u8>) {
        match self.serve(query, body, upstream) {
            Ok(answer) => answer,
            Err(e) => {
                let r = e.into_response();
                (r.status, r.code.to_string().into_bytes())
            }
        }
    }

    fn serve(
        &mut self,
        query: &str,
        body: &[u8],
        upstream: &dyn Fn(&str) -> Result<(u16, Vec<u8>), String>,
    ) -> Result<(u16, Vec<u8>), ProxyError> {
        let_in(&self.gateway, Some(query), None, None, body.len())?;
        let parsed = parse_body("/", body);
        self.stats.record_methods(&parsed);
        let mut exchange = Exchange::begin(&parsed, &self.costs, &self.gateway);
        loop {
            let now = now_ms();
            let i = match exchange.next_step(&mut self.pool, &mut self.stats, now) {
                Step::Try(i) => i,
                Step::GiveUp(e) => return Err(e),
            };
            let key = self.pool.upstreams[i].api_key.expose().to_string();
            self.contacted.push(key.clone());
            let reply = upstream(&key);
            let (answer, relayed) = match reply {
                Ok((status, body)) => (judge(status, &body), Some((status, body))),
                Err(reason) => (Answer::Unreachable(reason), None),
            };
            if exchange.settle(i, answer, &mut self.pool, now) == Verdict::Relay {
                return Ok(relayed.unwrap());
            }
        }
    }

    fn total_credits(&self) -> u64 {
        self.pool.stats(now_ms()).iter().map(|u| u.credits_used).sum()
    }
}

#[test]
fn forwards_and_rewrites_api_key() {
    let url = build_upstream_url(
        "https://mainnet.helius-rpc.com",
        "/",
        Some("api-key=test-gw-key"),
        "upstream-key-1",
    );
    assert_eq!(url.as_deref(), Some("https://mainnet.helius-rpc.com/?api-key=upstream-key-1"));
    let mut w = World::new(&["upstream-key-1"], 1_000_000);
    let body = br#"{"jsonrpc":"2.0","id":1,"method":"getHealth"}"#;
    let (status, answer) = w.post("api-key=test-gw-key", body, &|key| {
        assert_eq!(key, "upstream-key-1");
        Ok((200, OK.to_vec()))
    });
    assert_eq!(status, 200);
    assert_eq!(answer, OK);
    assert_eq!(w.contacted.len(), 1);
}

#[test]
fn rejects_missing_gateway_key() {
    let mut w = World::new(&["upstream-key-1"], 1_000_000);
    let (status, code) = w.post("api-key=wrong-key", GET_SLOT, &|_| Ok((200, OK.to_vec())));
    assert_eq!(status, 401);
    assert_eq!(code, b"-32001");
    // Upstream must never have been contacted.
    assert!(w.contacted.is_empty());
}

#[test]
fn tracks_credits_in_stats() {
    let mut w = World::new(&["upstream-key-1"], 1_000_000);
    // getProgramAccounts costs 10 credits.
    let body = br#"{"jsonrpc":"2.0","id":1,"method":"getProgramAccounts"}"#;
    w.post("api-key=test-gw-key", body, &|_| Ok((200, OK.to_vec())));
    assert_eq!(w.pool.stats(now_ms())[0].credits_used, 10);
    assert_eq!(w.pool.stats(now_ms())[0].requests_ok, 1);
    assert_eq!(w.pool.stats(now_ms())[0].in_flight, 0);
    assert_eq!(w.stats.methods.get("getProgramAccounts"), Some(1));
}

#[test]
fn retries_next_key_on_http_429() {
    let mut w = World::new(&["key-1", "key-2"], 1_000_000);
    let (status, answer) = w.post("api-key=test-gw-key", GET_SLOT, &|key| {
        if key == "key-1" {
            Ok((429, Vec::new()))
        } else {
            Ok((200, OK.to_vec()))
        }
    });
    assert_eq!(status, 200);
    assert_eq!(answer, OK);
    assert_eq!(w.contacted, vec!["key-1", "key-2"]);
    // Only the key that served the request was charged for it.
    assert_eq!(w.pool.upstreams[0].credits_used(), 0);
    assert_eq!(w.pool.upstreams[1].credits_used(), 1);
    assert_eq!(w.pool.upstreams[0].rate_limit_hits(), 1);
    assert!(w.pool.upstreams[0].in_cooldown(now_ms()));
}

#[test]
fn retries_next_key_on_jsonrpc_32005() {
    let mut w = World::new(&["key-1", "key-2"], 1_000_000);
    // HTTP 200 but JSON-RPC "Too many requests" — must be treated as rate-limited.
    let (_, answer) = w.post("api-key=test-gw-key", GET_SLOT, &|key| {
        if key == "key-1" {
            Ok((200, TOO_MANY.to_vec()))
        } else {
            Ok((200, OK.to_vec()))
        }
    });
    assert_eq!(answer, OK, "should fail over past the -32005 key");
}

#[test]
fn all_rate_limited_returns_429() {
    let mut w = World::new(&["key-1", "key-2"], 1_000_000);
    let err = w.serve("api-key=test-gw-key", GET_SLOT, &|_| Ok((429, Vec::new()))).unwrap_err();
    assert_eq!(err.status(), 429);
    assert_eq!(err.rpc_code(), -32005);
    // Both keys are cooling for about a second.
    let secs = err.into_response().retry_after_secs.unwrap();
    assert!(secs == 1 || secs == 2, "{secs}");
    assert_eq!(w.contacted, vec!["key-1", "key-2"]);
    assert_eq!(w.total_credits(), 0);
    assert_eq!(w.stats.all_exhausted, 1);
}

#[test]
fn accepts_gateway_key_via_header() {
    assert!(check_gateway_auth("test-gw-key", None, Some("test-gw-key"), None).is_ok());
    assert!(let_in(&gateway(), None, Some("test-gw-key"), None, 10).is_ok());
}

#[test]
fn e2e_forwards_and_round_robins() {
    let mut w = World::new(&["k0", "k1"], 1_000_000);
    for _ in 0..4 {
        let (status, _) =
            w.post("api-key=test-gw-key", GET_SLOT, &|key| Ok((200, key.as_bytes().to_vec())));
        assert_eq!(status, 200);
    }
    assert_eq!(w.contacted, vec!["k0", "k1", "k0", "k1"]);
    // 4 getSlot calls @ 1 credit each.
    assert_eq!(w.total_credits(), 4);
}

#[test]
fn e2e_health_503_when_exhausted() {
    // Single key with a cap of exactly 1 credit.
    let mut w = World::new(&["k0"], 1);
    // Healthy before the cap is consumed.
    assert_eq!(health_status(&w.pool), 200);
    // One getSlot consumes the only credit.
    let ok = |_: &str| Ok((200, OK.to_vec()));
    assert_eq!(w.post("api-key=test-gw-key", GET_SLOT, &ok).0, 200);
    // Now exhausted → 503, and further RPC is rejected with 429.
    assert_eq!(health_status(&w.pool), 503);
    assert_eq!(w.post("api-key=test-gw-key", GET_SLOT, &ok).0, 429);
}

#[test]
fn unreachable_keys_are_passed_over() {
    let mut w = World::new(&["k0", "k1"], 100);
    let (status, _) = w.post("api-key=test-gw-key", GET_SLOT, &|key| {
        if key == "k0" {
            Err("connection refused".into())
        } else {
            Ok((200, OK.to_vec()))
        }
    });
    assert_eq!(status, 200);
    assert_eq!(w.pool.upstreams[0].requests_error(), 1);
    assert!(!w.pool.upstreams[0].in_cooldown(now_ms()));
}

#[test]
fn nothing_reached_is_a_bad_gateway() {
    let mut w = World::new(&["k0", "k1"], 100);
    let err = w
        .serve("api-key=test-gw-key", GET_SLOT, &|key| Err(format!("no route to {key}")))
        .unwrap_err();
    assert_eq!(err.status(), 502);
    assert_eq!(err.message(), "bad gateway: no route to k1");
    assert_eq!(w.stats.all_exhausted, 0);
    assert_eq!(w.total_credits(), 0);
}

#[test]
fn one_rate_limited_try_makes_it_exhaustion() {
    let mut w = World::new(&["k0", "k1"], 100);
    let err = w
        .serve("api-key=test-gw-key", GET_SLOT, &|key| {
            if key == "k0" {
                Ok((429, Vec::new()))
            } else {
                Err("timed out".into())
            }
        })
        .unwrap_err();
    assert_eq!(err.status(), 429);
    assert_eq!(w.stats.all_exhausted, 1);
}

#[test]
fn no_more_keys_are_tried_than_allowed() {
    let mut w = World::new(&["k0", "k1", "k2"], 100);
    w.gateway.max_retries = 2;
    let err = w.serve("api-key=test-gw-key", GET_SLOT, &|_| Ok((429, Vec::new()))).unwrap_err();
    assert_eq!(err.status(), 429);
    assert_eq!(w.contacted, vec!["k0", "k1"]);
    // The next request starts behind: the other two are cooling.
    let (status, _) = w.post("api-key=test-gw-key", GET_SLOT, &|_| Ok((200, OK.to_vec())));
    assert_eq!(status, 200);
    assert_eq!(w.contacted.last().unwrap(), "k2");
}

#[test]
fn other_errors_are_relayed_and_charged() {
    let mut w = World::new(&["k0"], 100);
    let (status, _) = w.post("api-key=test-gw-key", GET_SLOT, &|_| Ok((500, b"oops".to_vec())));
    assert_eq!(status, 500);
    assert_eq!(w.total_credits(), 1);
}

#[test]
fn every_auth_style_is_accepted() {
    let gw = "test-gw-key";
    let ok = |q, x, a| check_gateway_auth(gw, q, x, a).is_ok();
    assert!(ok(Some("api-key=test-gw-key"), None, None));
    assert!(ok(Some("a=b&api-key=no&api-key=test%2Dgw%2dkey"), None, None));
    assert!(ok(None, Some(gw), None));
    assert!(ok(None, None, Some("Bearer test-gw-key")));
    assert!(ok(None, None, Some("Bearer   test-gw-key ")));
    assert!(ok(Some("api-key=wrong"), Some("wrong"), Some("Bearer test-gw-key")));

    assert!(!ok(None, None, None));
    assert!(!ok(Some(""), None, None));
    assert!(!ok(Some("API-KEY=test-gw-key"), None, None));
    assert!(!ok(Some("api-key=test-gw-key2"), None, None));
    assert!(!ok(None, Some(" test-gw-key"), None));
    assert!(!ok(None, None, Some("bearer test-gw-key")));
    assert!(!ok(None, None, Some("Basic test-gw-key")));
    assert!(!ok(None, None, Some("test-gw-key")));
}

#[test]
fn query_values_are_decoded_for_auth() {
    assert!(check_gateway_auth("a b+c", Some("api-key=a+b%2Bc"), None, None).is_ok());
    assert!(check_gateway_auth("é", Some("api-key=%C3%A9"), None, None).is_ok());
    assert!(check_gateway_auth("", Some("api-key"), None, None).is_ok());
}

#[test]
fn credentials_come_before_the_body_size() {
    let mut g = gateway();
    g.max_body_bytes = 3;
    let q = Some("api-key=test-gw-key");
    assert!(let_in(&g, q, None, None, 3).is_ok());
    assert_eq!(let_in(&g, q, None, None, 4).unwrap_err().status(), 413);
    assert_eq!(let_in(&g, None, None, None, 4).unwrap_err().status(), 401);
}

#[test]
fn headers_of_one_hop_stay_behind() {
    for h in [
        "connection",
        "Keep-Alive",
        "proxy-authenticate",
        "PROXY-AUTHORIZATION",
        "te",
        "trailer",
        "Transfer-Encoding",
        "upgrade",
        "Host",
    ] {
        assert!(is_hop_by_hop(h), "{h}");
        assert!(!forwards_header(h), "{h}");
    }
    for h in ["x-api-key", "X-Api-Key", "authorization", "Authorization"] {
        assert!(is_gateway_auth_header(h), "{h}");
        assert!(!is_hop_by_hop(h), "{h}");
        assert!(!forwards_header(h), "{h}");
    }
    for h in ["content-type", "accept", "x-api-keys", "hosts", ""] {
        assert!(forwards_header(h), "{h}");
    }
}

#[test]
fn urls_keep_everything_but_the_key() {
    let url = |path, query| build_upstream_url("https://h.example", path, query, "k").unwrap();
    assert_eq!(url("/", None), "https://h.example/?api-key=k");
    assert_eq!(url("/", Some("")), "https://h.example/?api-key=k");
    assert_eq!(
        url("/x", Some("a=b%20c&api-key=gw&z=1")),
        "https://h.example/x?a=b%20c&api-key=k&z=1"
    );
    assert_eq!(
        url("/v0/transactions", Some("a=1&api-key=client&b=x+y&api-key=again&c")),
        "https://h.example/v0/transactions?a=1&api-key=k&b=x+y&c"
    );
    // Paths and queries that could be written otherwise are not.
    assert_eq!(
        url("/a//b/../c%2f", Some("flag&=&x=&&q=%26%3D%23&")),
        "https://h.example/a//b/../c%2f?flag&=&x=&&q=%26%3D%23&&api-key=k"
    );
    assert_eq!(url("", None), "https://h.example/?api-key=k");
    assert_eq!(url("*", None), "https://h.example/*?api-key=k");
    // Of the base, only what stands before its path counts.
    assert_eq!(
        build_upstream_url("HTTP://u:p@H:81/x?y=z#f", "/", None, "k").as_deref(),
        Some("http://u:p@h:81/?api-key=k")
    );
    assert_eq!(build_upstream_url("h.example", "/", None, "k"), None);
}

#[test]
fn an_escaped_key_name_is_recognized() {
    assert_eq!(rewritten_query(Some("api%2Dkey=gw&a=1"), "k"), "api-key=k&a=1");
    assert_eq!(rewritten_query(Some("api-key"), "k"), "api-key=k");
    assert_eq!(rewritten_query(Some("api+key=gw"), "k"), "api+key=gw&api-key=k");
    assert_eq!(rewritten_query(Some("API-KEY=gw"), "k"), "API-KEY=gw&api-key=k");
    assert_eq!(rewritten_query(Some("x=api-key"), "k"), "x=api-key&api-key=k");
    assert_eq!(rewritten_query(None, "k"), "api-key=k");
}

#[test]
fn parts_are_replaced_by_their_names() {
    let parts = vec!["a=1", "K=gw", "", "K=again"];
    let names: Vec<String> =
        ["a", "api-key", "", "api-key"].iter().map(|n| n.to_string()).collect();
    assert_eq!(replace_key(&parts, &names, "api-key=k"), "a=1&api-key=k&");
    assert_eq!(replace_key(&vec![], &vec![], "api-key=k"), "api-key=k");
}

#[test]
fn a_url_is_put_behind_its_front() {
    assert_eq!(
        url_behind("https://h:1", "/p", Some("a&api-key=x"), "k"),
        "https://h:1/p?a&api-key=k"
    );
}

#[test]
fn the_key_of_a_built_url_reads_back() {
    let url = build_upstream_url("https://h.example", "/", Some("b=%00"), "k&=?# /é").unwrap();
    assert_eq!(url, "https://h.example/?b=%00&api-key=k%26%3D%3F%23+%2F%C3%A9");
    let query = url.split_once('?').unwrap().1;
    let pairs: Vec<(String, String)> =
        url::form_urlencoded::parse(query.as_bytes()).into_owned().collect();
    assert_eq!(
        pairs,
        vec![
            ("b".to_string(), "\0".to_string()),
            ("api-key".to_string(), "k&=?# /é".to_string()),
        ]
    );
}

#[test]
fn bases_are_checked() {
    assert!(is_base_url("https://mainnet.helius-rpc.com"));
    assert!(is_base_url("http://127.0.0.1:8899"));
    assert!(!is_base_url(""));
    assert!(!is_base_url("mainnet.helius-rpc.com"));
    assert!(!is_base_url("https://"));
}

#[test]
fn rate_limits_are_recognized() {
    assert!(is_rate_limited(429, b""));
    assert!(is_rate_limited(429, OK));
    assert!(is_rate_limited(200, TOO_MANY));
    assert!(!is_rate_limited(200, OK));
    assert!(!is_rate_limited(503, b"not json"));
    assert!(!is_rate_limited(200, br#"{"error":{"code":-32004}}"#));
    assert!(!is_rate_limited(200, br#"{"error":{"code":"-32005"}}"#));
    assert!(!is_rate_limited(200, br#"{"result":{"error":{"code":-32005}}}"#));
    assert!(!is_rate_limited(200, br#"{"error":{"code":-32005}"#));
    assert!(signals_rate_limit(200, Some(-32005)));
    assert!(!signals_rate_limit(200, Some(-32006)));
    assert!(!signals_rate_limit(200, None));
    assert!(signals_rate_limit(429, None));
    assert!(matches!(judge(200, TOO_MANY), Answer::RateLimited));
    assert!(matches!(judge(404, OK), Answer::Serviced));
}

#[test]
fn the_choice_of_a_key_is_acted_upon() {
    let mut pool = pool_of(&["k0", "k1"], 100);
    let mut stats = Stats::new();
    let costs = CostTable::from_config(&CostsConfig::default());
    let parsed = parse_body("/", GET_SLOT);
    let mut exchange = Exchange::begin(&parsed, &costs, &gateway());
    assert_eq!(exchange.cost, 1);
    assert!(matches!(exchange.proceed(Some(1), &mut pool, &mut stats, 5), Step::Try(1)));
    assert_eq!(exchange.tried, vec![1]);
    assert_eq!(pool.upstreams[1].in_flight, 1);
    assert_eq!(
        exchange.settle(1, Answer::Unreachable("x".into()), &mut pool, 5),
        Verdict::Retry
    );
    assert_eq!(pool.upstreams[1].in_flight, 0);
    assert!(matches!(
        exchange.proceed(None, &mut pool, &mut stats, 5),
        Step::GiveUp(ProxyError::BadGateway(_))
    ));
    let fresh = Exchange::begin(&parsed, &costs, &gateway());
    assert!(matches!(
        fresh.final_error(&pool, 5),
        ProxyError::AllUpstreamsExhausted { retry_after_secs: None }
    ));
}

#[test]
fn quotas_of_the_keys_add_up() {
    let mut w = World::new(&["k0", "k1", "k2"], 2);
    for served in 1..=6 {
        let (status, _) = w.post("api-key=test-gw-key", GET_SLOT, &|_| Ok((200, OK.to_vec())));
        assert_eq!(status, 200);
        let left: u64 = w.pool.upstreams.iter().map(|u| u.remaining_credits()).sum();
        assert_eq!(left, 6 - served);
    }
    let (status, code) = w.post("api-key=test-gw-key", GET_SLOT, &|_| Ok((200, OK.to_vec())));
    assert_eq!(status, 429);
    assert_eq!(code, b"-32005");
}
