//! Upstream connection keep-alive.
//!
//! Periodically a cheap `getHealth` is sent to each enabled key so its pooled
//! Helius connection (TCP + TLS) stays warm, cutting the cold-connection tail
//! latency that round-robin selection would otherwise hit when a key's
//! connection has gone idle.
//!
//! Each ping is a real Helius call (~1 credit per key), so it counts against the
//! key's quota and is reflected in credit metrics. Disabled when
//! `gateway.keepalive_secs == 0`.

use vstd::prelude::*;

use crate::config::GatewayConfig;
use crate::credits::CostTable;
use crate::proxy::{key_part, key_text, plain_base, split_url, url_split};
use crate::upstream::{Pool, Upstream};

verus! {

/// The seconds between two rounds of pings, if there are any rounds.
pub fn interval_secs(gateway: &GatewayConfig) -> (secs: Option<u64>)
    ensures
        secs == (if gateway.keepalive_secs == 0 {
            None
        } else {
            Some(gateway.keepalive_secs)
        }),
{
    if gateway.keepalive_secs == 0 {
        None
    } else {
        Some(gateway.keepalive_secs)
    }
}

/// The credits that a ping costs.
pub fn ping_cost(costs: &CostTable) -> (cost: u64)
    ensures
        cost == costs.cost("getHealth"@),
{
    costs.cost_of("getHealth") as u64
}

/// Whether a key is pinged: it is enabled, not on cooldown, and can afford it.
pub fn wants_ping(up: &Upstream, cost: u64, now_ms: u64) -> (yes: bool)
    ensures
        yes == up.available(cost, now_ms),
        yes <==> up.enabled && (up.credits_used + cost <= up.credit_cap || up.credit_cap
            == u64::MAX) && up.cooldown_until <= now_ms,
{
    up.is_enabled() && !up.in_cooldown(now_ms) && up.has_quota_for(cost)
}

/// What came of a ping.
#[derive(Debug, Clone, Copy, PartialEq, Eq, Structural)]
pub enum PingOutcome {
    /// The key is rate-limited, and now on cooldown.
    RateLimited,
    /// The key was charged for it, and has used that many credits this month.
    Charged(u64),
    /// There was no answer.
    Failed,
}

/// What a key becomes after a ping that brought an answer with that status, or none.
pub open spec fn pinged(up: Upstream, status: Option<u16>, cost: u64, now_ms: u64) -> Upstream {
    match status {
        Some(code) => if code == 429 {
            up.tripped(now_ms).counted_rate_limited()
        } else {
            up.charged(cost)
        },
        None => up,
    }
}

/// Settles a ping of the key at `i` that was sent at `now_ms`: the status of the answer, if
/// there was one.
pub fn settle_ping(
    pool: &mut Pool,
    i: usize,
    status: Option<u16>,
    cost: u64,
    now_ms: u64,
) -> (outcome: PingOutcome)
    requires
        i < old(pool).upstreams@.len(),
    ensures
        final(pool).upstreams@ == old(pool).upstreams@.update(
            i as int,
            pinged(old(pool).upstreams@[i as int], status, cost, now_ms),
        ),
        final(pool).cursor == old(pool).cursor,
        outcome == (match status {
            Some(429) => PingOutcome::RateLimited,
            Some(_) => PingOutcome::Charged(final(pool).upstreams@[i as int].credits_used),
            None => PingOutcome::Failed,
        }),
{
    match status {
        Some(code) => {
            if code == 429 {
                pool.upstreams[i].trip_cooldown(now_ms);
                pool.upstreams[i].record_rate_limited();
                PingOutcome::RateLimited
            } else {
                PingOutcome::Charged(pool.upstreams[i].add_credits(cost))
            }
        },
        None => {
            assert(old(pool).upstreams@.update(i as int, old(pool).upstreams@[i as int])
                =~= old(pool).upstreams@);
            PingOutcome::Failed
        },
    }
}

/// Where a key is pinged: the base, with the key as the only query parameter. There is no
/// such place where the base is no URL.
pub fn ping_url(base: &str, upstream_key: &str) -> (url: Option<String>)
    ensures
        match (url, url_split(base@)) {
            (Some(u), Some((front, path, rest))) => u@ == front + path + "?"@ + key_text(
                upstream_key@,
            ) + rest,
            (None, None) => true,
            _ => false,
        },
        plain_base(base@) ==> (url matches Some(u) && u@ == base@ + "/?"@ + key_text(
            upstream_key@,
        )),
{
    match split_url(base) {
        Some((front, path, rest)) => {
            let part = key_part(upstream_key);
            let url = front.concat(path.as_str()).concat("?").concat(part.as_str()).concat(
                rest.as_str(),
            );
            proof {
                if plain_base(base@) {
                    reveal_strlit("/");
                    reveal_strlit("?");
                    reveal_strlit("/?");
                    assert(url@ =~= base@ + "/?"@ + key_text(upstream_key@));
                }
            }
            Some(url)
        },
        None => None,
    }
}

/// A ping that brings no answer costs nothing and changes nothing; one that says the key is
/// rate-limited costs nothing either.
pub proof fn only_an_answered_ping_is_charged(
    up: Upstream,
    status: Option<u16>,
    cost: u64,
    now_ms: u64,
)
    ensures
        status is None ==> pinged(up, status, cost, now_ms) == up,
        status == Some(429u16) ==> pinged(up, status, cost, now_ms).credits_used
            == up.credits_used,
        status matches Some(code) && code != 429 ==> pinged(up, status, cost, now_ms)
            == up.charged(cost),
{
}

} // verus!
