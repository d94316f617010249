//! How a request is let in, tried, settled and answered.

use vstd::prelude::*;

use crate::config::GatewayConfig;
use crate::error::ProxyError;
use crate::keepalive::pinged;
use crate::proxy::{
    authorized, chosen, ends_with, entry_check, gateway_auth, hop_by_hop, opt_chars, pair_texts,
    pairs_of, query_pairs, rate_limited, settled, with_failure, Answer, Exchange, Failure, Step,
};
use crate::ratelimit::{bucket_grants, bucket_rate};
use crate::stats::Stats;
use crate::text::{ascii_lower, equal_ignoring_case, trimmed};
use crate::upstream::{every_key_comes_up, slot, soonest_secs, Pool, Upstream};

use super::routing::{
    a_fit_key_with_a_token_is_found, no_unfit_key_is_selected, the_rotor_moves_on_by_one,
};

verus! {

/// A request goes on to a key for as long as it has tried fewer keys than it may, and some key
/// that comes up, and that it has not tried, is enabled, has the credits, is not cooling, and
/// has a token. How often it was tried before is of no other account.
pub proof fn a_request_goes_on_while_it_has_tries_and_a_fit_key(
    exchange: Exchange,
    pool: Pool,
    stats: Stats,
    after: Exchange,
    after_pool: Pool,
    after_stats: Stats,
    now_ms: u64,
    step: Step,
    i: int,
    off: int,
)
    requires
        exchange.stepped(pool, stats, after, after_pool, after_stats, now_ms, step),
        exchange.tried@.len() < exchange.max_tries,
        0 <= off < pool.upstreams@.len(),
        i == (if pool.cursor + off <= usize::MAX {
            (pool.cursor + off) % (pool.upstreams@.len() as int)
        } else {
            (pool.cursor + off - usize::MAX - 1) % (pool.upstreams@.len() as int)
        }),
        !exchange.tried@.contains(i as usize),
        pool.upstreams@[i].enabled,
        pool.upstreams@[i].credits_used + exchange.cost <= pool.upstreams@[i].credit_cap
            || pool.upstreams@[i].credit_cap == u64::MAX,
        pool.upstreams@[i].cooldown_until <= now_ms,
        pool.upstreams@[i].limiters.bucket(exchange.class) matches Some(bucket)
            ==> bucket_grants(bucket) < bucket_rate(bucket),
    ensures
        step is Try,
{
    let (mid, k) = choose|mid: Seq<Upstream>, k: int| #[trigger]
        pool.selected(
            mid,
            exchange.class,
            exchange.cost,
            exchange.tried@,
            now_ms,
            k,
            chosen(step),
        ) && exchange.advanced(
            mid,
            stats,
            after,
            after_pool.upstreams@,
            after_stats,
            now_ms,
            step,
        );
    a_fit_key_with_a_token_is_found(
        pool,
        mid,
        exchange.class,
        exchange.cost,
        exchange.tried@,
        now_ms,
        k,
        chosen(step),
        i,
        off,
    );
}

/// While the rotor does not run over, any fit key with a token that was not tried is enough for
/// a request to go on, wherever it stands.
pub proof fn any_fit_key_is_enough_to_go_on(
    exchange: Exchange,
    pool: Pool,
    stats: Stats,
    after: Exchange,
    after_pool: Pool,
    after_stats: Stats,
    now_ms: u64,
    step: Step,
    i: int,
)
    requires
        exchange.stepped(pool, stats, after, after_pool, after_stats, now_ms, step),
        exchange.tried@.len() < exchange.max_tries,
        pool.cursor + pool.upstreams@.len() <= usize::MAX,
        0 <= i < pool.upstreams@.len(),
        !exchange.tried@.contains(i as usize),
        pool.upstreams@[i].enabled,
        pool.upstreams@[i].credits_used + exchange.cost <= pool.upstreams@[i].credit_cap
            || pool.upstreams@[i].credit_cap == u64::MAX,
        pool.upstreams@[i].cooldown_until <= now_ms,
        pool.upstreams@[i].limiters.bucket(exchange.class) matches Some(bucket)
            ==> bucket_grants(bucket) < bucket_rate(bucket),
    ensures
        step is Try,
{
    let n = pool.upstreams@.len() as int;
    every_key_comes_up(pool.cursor, i, n);
    let off = choose|off: int| 0 <= off < n && i == #[trigger] slot(pool.cursor, off, n);
    a_request_goes_on_while_it_has_tries_and_a_fit_key(
        exchange,
        pool,
        stats,
        after,
        after_pool,
        after_stats,
        now_ms,
        step,
        i,
        off,
    );
}

/// Whatever distinct keys of the pool a request has tried, and as many as it may, it can take
/// the next step.
pub proof fn any_distinct_tries_may_go_before(exchange: Exchange, n: int)
    requires
        exchange.tried@.no_duplicates(),
        forall|i: int| 0 <= i < exchange.tried@.len() ==> (#[trigger] exchange.tried@[i]) < n,
        exchange.tried@.len() <= exchange.max_tries,
    ensures
        exchange.well_formed(n),
{
}

/// A request that has had all its tries goes to no further key: it ends, and the keys, the rotor
/// and the tries stay as they are.
pub proof fn a_request_ends_after_its_tries(
    exchange: Exchange,
    pool: Pool,
    stats: Stats,
    after: Exchange,
    after_pool: Pool,
    after_stats: Stats,
    now_ms: u64,
    step: Step,
)
    requires
        exchange.stepped(pool, stats, after, after_pool, after_stats, now_ms, step),
        exchange.tried@.len() >= exchange.max_tries,
    ensures
        step is GiveUp,
        after == exchange,
        after_pool == pool,
{
}

/// A try goes to a key of the pool that was not tried before, that is enabled, whose cap the
/// cost stays within, and whose cooldown is over; and never past the number of tries. The key is
/// noted as tried, and has one request more in flight. Of the other keys none is touched, and
/// neither are the failures, the cost, the class, the credits and the statistics.
pub proof fn a_try_is_noted(
    exchange: Exchange,
    pool: Pool,
    stats: Stats,
    after: Exchange,
    after_pool: Pool,
    after_stats: Stats,
    now_ms: u64,
    i: usize,
    x: int,
)
    requires
        exchange.stepped(pool, stats, after, after_pool, after_stats, now_ms, Step::Try(i)),
        0 <= x < pool.upstreams@.len(),
    ensures
        exchange.tried@.len() < exchange.max_tries,
        i < pool.upstreams@.len(),
        !exchange.tried@.contains(i),
        pool.upstreams@[i as int].enabled,
        pool.upstreams@[i as int].credits_used + exchange.cost
            <= pool.upstreams@[i as int].credit_cap || pool.upstreams@[i as int].credit_cap
            == u64::MAX,
        pool.upstreams@[i as int].cooldown_until <= now_ms,
        after.tried@ == exchange.tried@ + seq![i],
        after.failures == exchange.failures,
        after.cost == exchange.cost,
        after.class == exchange.class,
        after.max_tries == exchange.max_tries,
        after_stats == stats,
        after_pool.upstreams@.len() == pool.upstreams@.len(),
        after_pool.upstreams@[x] == (Upstream {
            in_flight: after_pool.upstreams@[x].in_flight,
            limiters: after_pool.upstreams@[x].limiters,
            ..pool.upstreams@[x]
        }),
        x != i ==> after_pool.upstreams@[x].in_flight == pool.upstreams@[x].in_flight,
        x == i && pool.upstreams@[x].in_flight < u32::MAX ==> after_pool.upstreams@[x].in_flight
            == pool.upstreams@[x].in_flight + 1,
        pool.cursor < usize::MAX ==> after_pool.cursor == pool.cursor + 1,
        pool.cursor == usize::MAX ==> after_pool.cursor == 0,
{
    let (mid, k) = choose|mid: Seq<Upstream>, k: int| #[trigger]
        pool.selected(
            mid,
            exchange.class,
            exchange.cost,
            exchange.tried@,
            now_ms,
            k,
            Some(i),
        ) && exchange.advanced(
            mid,
            stats,
            after,
            after_pool.upstreams@,
            after_stats,
            now_ms,
            Step::Try(i),
        );
    no_unfit_key_is_selected(
        pool,
        mid,
        exchange.class,
        exchange.cost,
        exchange.tried@,
        now_ms,
        k,
        i,
    );
    assert(mid[x].same_but_buckets(&pool.upstreams@[x]));
    the_rotor_moves_on_by_one(pool);
}

/// A step goes to a key if and only if it is a try, and then to that one.
pub proof fn a_try_goes_to_its_key(step: Step, i: usize)
    ensures
        chosen(step) == Some(i) <==> step == Step::Try(i),
        chosen(step) is None <==> step is GiveUp,
{
}

/// A request that ends leaves its own state as it is, and changes nothing of a key but what was
/// asked of its buckets. The statistics count it once if it is told that all upstreams are
/// exhausted, and not at all otherwise.
pub proof fn a_request_that_ends_is_counted_once(
    exchange: Exchange,
    pool: Pool,
    stats: Stats,
    after: Exchange,
    after_pool: Pool,
    after_stats: Stats,
    now_ms: u64,
    error: ProxyError,
    x: int,
)
    requires
        exchange.stepped(pool, stats, after, after_pool, after_stats, now_ms, Step::GiveUp(error)),
        0 <= x < pool.upstreams@.len(),
    ensures
        after == exchange,
        after_pool.upstreams@.len() == pool.upstreams@.len(),
        after_pool.upstreams@[x] == (Upstream {
            limiters: after_pool.upstreams@[x].limiters,
            ..pool.upstreams@[x]
        }),
        ends_with(error, exchange.failures@, after_pool.upstreams@, now_ms),
        after_stats == (Stats { all_exhausted: after_stats.all_exhausted, ..stats }),
        error is AllUpstreamsExhausted || error is BadGateway,
        error is AllUpstreamsExhausted ==> after_stats.all_exhausted == (stats.all_exhausted + 1)
            % 0x1_0000_0000_0000_0000,
        error is BadGateway ==> after_stats.all_exhausted == stats.all_exhausted,
{
    if exchange.tried@.len() < exchange.max_tries {
        let (mid, k) = choose|mid: Seq<Upstream>, k: int| #[trigger]
            pool.selected(
                mid,
                exchange.class,
                exchange.cost,
                exchange.tried@,
                now_ms,
                k,
                None,
            ) && exchange.advanced(
                mid,
                stats,
                after,
                after_pool.upstreams@,
                after_stats,
                now_ms,
                Step::GiveUp(error),
            );
        assert(mid[x].same_but_buckets(&pool.upstreams@[x]));
    }
}

/// An answer says that the key is rate-limited if and only if its status is 429 or the code of
/// its JSON-RPC error is -32005. No other status and no other code does.
pub proof fn only_429_and_32005_are_rate_limits(status: u16, code: Option<i64>)
    ensures
        rate_limited(status, code) <==> status == 429 || (code matches Some(c) && c == -32005),
{
}

/// An answer that is no rate limit is serviced, whatever other status and whatever other error
/// code it has: the key does not begin to cool, and its backoff is reset.
pub proof fn other_errors_do_not_cool_a_key(
    up: Upstream,
    status: u16,
    code: Option<i64>,
    answer: Answer,
    cost: u64,
    now_ms: u64,
)
    requires
        status != 429,
        code matches Some(c) ==> c != -32005,
        answer == (if rate_limited(status, code) {
            Answer::RateLimited
        } else {
            Answer::Serviced
        }),
    ensures
        answer is Serviced,
        settled(up, answer, cost, now_ms).cooldown_until == up.cooldown_until,
        settled(up, answer, cost, now_ms).backoff_step == 0,
        settled(up, answer, cost, now_ms).rate_limit_hits == up.rate_limit_hits,
{
}

/// What becomes of a key whose request ended, field by field. Serviced: the cost is charged,
/// the backoff is reset, and one more request counts as serviced. Rate-limited: the cooldown
/// starts and the backoff goes one step up, and the limit is counted. Unreachable: an error is
/// counted. In each case one request less is in flight, and nothing else changes.
pub proof fn a_settled_key_field_by_field(
    up: Upstream,
    answer: Answer,
    cost: u64,
    now_ms: u64,
)
    ensures
        ({
            let after = settled(up, answer, cost, now_ms);
            &&& up.in_flight > 0 ==> after.in_flight == up.in_flight - 1
            &&& up.in_flight == 0 ==> after.in_flight == u32::MAX
            &&& answer is Serviced ==> after == (Upstream {
                in_flight: after.in_flight,
                credits_used: after.credits_used,
                credits_total: after.credits_total,
                requests_ok: after.requests_ok,
                backoff_step: 0,
                ..up
            }) && after.credits_used == (up.credits_used + cost) % 0x1_0000_0000_0000_0000
                && after.credits_total == (up.credits_total + cost) % 0x1_0000_0000_0000_0000
                && after.requests_ok == (up.requests_ok + 1) % 0x1_0000_0000_0000_0000
            &&& answer is RateLimited ==> after == (Upstream {
                in_flight: after.in_flight,
                cooldown_until: up.tripped(now_ms).cooldown_until,
                backoff_step: after.backoff_step,
                requests_rate_limited: after.requests_rate_limited,
                rate_limit_hits: after.rate_limit_hits,
                ..up
            }) && after.backoff_step == (up.backoff_step + 1) % 0x1_0000_0000
                && after.requests_rate_limited == (up.requests_rate_limited + 1)
                % 0x1_0000_0000_0000_0000 && after.rate_limit_hits == (up.rate_limit_hits + 1)
                % 0x1_0000_0000_0000_0000
            &&& answer is Unreachable ==> after == (Upstream {
                in_flight: after.in_flight,
                requests_error: after.requests_error,
                ..up
            }) && after.requests_error == (up.requests_error + 1) % 0x1_0000_0000_0000_0000
        }),
{
}

/// A try fails if it is rate-limited or unreachable, and then one failure is added, of that
/// kind and for that reason, behind those that were there; a serviced one adds none.
pub proof fn each_failed_try_adds_one_failure(
    before: Seq<Failure>,
    after: Seq<Failure>,
    answer: Answer,
    i: int,
)
    requires
        with_failure(before, after, answer),
    ensures
        answer is Serviced ==> after == before,
        !(answer is Serviced) ==> after.len() == before.len() + 1,
        0 <= i < before.len() ==> after[i] == before[i],
        answer is RateLimited ==> after.last() is RateLimited,
        answer matches Answer::Unreachable(reason) ==> after.last() == Failure::Unreachable(reason),
{
}

/// What a request without an answer to relay is told. A single rate limit among its tries, or
/// no try at all: 429 with the code -32005, and when to come back. Tries that all went to
/// unreachable keys: 502 with the code -32603, and the reason of the last.
pub proof fn what_an_unserved_request_is_told(
    error: ProxyError,
    failures: Seq<Failure>,
    ups: Seq<Upstream>,
    now_ms: u64,
    reason: String,
)
    requires
        ends_with(error, failures, ups, now_ms),
    ensures
        failures.len() == 0 || failures.contains(Failure::RateLimited) ==> {
            &&& error == (ProxyError::AllUpstreamsExhausted {
                retry_after_secs: soonest_secs(ups, now_ms),
            })
            &&& error.http_status() == 429
            &&& error.json_rpc_code() == -32005
            &&& error.retry_after() == soonest_secs(ups, now_ms)
        },
        failures.len() > 0 && !failures.contains(Failure::RateLimited) && failures.last()
            == Failure::Unreachable(reason) ==> {
            &&& error is BadGateway
            &&& error.http_status() == 502
            &&& error.json_rpc_code() == -32603
            &&& error.retry_after() is None
            &&& error.text() == "bad gateway: "@ + reason@
        },
{
    if failures.contains(Failure::RateLimited) {
        let i = choose|i: int| 0 <= i < failures.len() && failures[i] == Failure::RateLimited;
        assert(!(failures[i] is Unreachable));
    } else {
        assert forall|i: int| 0 <= i < failures.len() implies (
        #[trigger] failures[i]) is Unreachable by {
            if failures[i] is RateLimited {
                assert(failures[i] == Failure::RateLimited);
            }
        }
    }
}

/// The status, the code, the words and the time to come back of each error.
pub proof fn each_error_has_its_own_answer(secs: Option<u64>, reason: String)
    ensures
        ProxyError::Unauthorized.http_status() == 401,
        ProxyError::Unauthorized.json_rpc_code() == -32001,
        ProxyError::Unauthorized.text() == "unauthorized"@,
        ProxyError::Unauthorized.retry_after() is None,
        ProxyError::PayloadTooLarge.http_status() == 413,
        ProxyError::PayloadTooLarge.json_rpc_code() == -32600,
        ProxyError::PayloadTooLarge.text() == "payload too large"@,
        ProxyError::PayloadTooLarge.retry_after() is None,
        ({
            let error = ProxyError::AllUpstreamsExhausted { retry_after_secs: secs };
            &&& error.http_status() == 429
            &&& error.json_rpc_code() == -32005
            &&& error.text() == "all upstreams exhausted"@
            &&& error.retry_after() == secs
        }),
        ({
            let error = ProxyError::BadGateway(reason);
            &&& error.http_status() == 502
            &&& error.json_rpc_code() == -32603
            &&& error.text() == "bad gateway: "@ + reason@
            &&& error.retry_after() is None
        }),
{
}

/// A request carries the gateway's key if and only if it presents it in one of three ways: as
/// the value of a query parameter `api-key`, as the whole of `x-api-key`, or, with white space
/// around it at most, behind `Bearer ` in `authorization`. One right way is enough, whatever
/// the others hold.
pub proof fn one_right_credential_is_enough(
    expected: Seq<char>,
    pairs: Seq<(Seq<char>, Seq<char>)>,
    x_api_key: Option<Seq<char>>,
    authorization: Option<Seq<char>>,
)
    ensures
        authorized(expected, pairs, x_api_key, authorization) <==> {
            ||| exists|i: int|
                0 <= i < pairs.len() && (#[trigger] pairs[i]).0 == "api-key"@ && pairs[i].1
                    == expected
            ||| x_api_key matches Some(value) && value == expected
            ||| authorization matches Some(value) && value.len() >= 7 && value[0] == 'B' && value[1]
                == 'e' && value[2] == 'a' && value[3] == 'r' && value[4] == 'e' && value[5] == 'r'
                && value[6] == ' ' && trimmed(value.subrange(7, value.len() as int)) == expected
        },
{
    reveal_strlit("Bearer ");
    let want = ("api-key"@, expected);
    if pairs.contains(want) {
        let i = choose|i: int| 0 <= i < pairs.len() && pairs[i] == want;
        assert(pairs[i].0 == "api-key"@);
    }
    if exists|i: int|
        0 <= i < pairs.len() && (#[trigger] pairs[i]).0 == "api-key"@ && pairs[i].1 == expected {
        let i = choose|i: int|
            0 <= i < pairs.len() && (#[trigger] pairs[i]).0 == "api-key"@ && pairs[i].1 == expected;
        assert(pairs[i] == want);
    }
    if let Some(value) = authorization {
        let bearer = "Bearer "@;
        if value.len() >= 7 {
            assert(value.skip(7) =~= value.subrange(7, value.len() as int));
        }
        if bearer.is_prefix_of(value) {
            assert forall|i: int| 0 <= i < 7 implies value[i] == bearer[i] by {
                assert(value.subrange(0, 7)[i] == value[i]);
            }
        } else if value.len() >= 7 && value[0] == 'B' && value[1] == 'e' && value[2] == 'a'
            && value[3] == 'r' && value[4] == 'e' && value[5] == 'r' && value[6] == ' ' {
            assert(bearer =~= value.subrange(0, 7));
        }
    }
}

/// The pairs that are looked at are all the pairs of the query, in order, and none where there
/// is no query; and a header is looked at as it stands.
pub proof fn all_the_pairs_are_looked_at(pairs: Seq<(String, String)>, i: int, query: &str)
    requires
        0 <= i < pairs.len(),
    ensures
        pair_texts(pairs).len() == pairs.len(),
        pair_texts(pairs)[i] == (pairs[i].0@, pairs[i].1@),
        pairs_of(Some(query)) == query_pairs(query@),
        pairs_of(None).len() == 0,
        opt_chars(Some(query)) == Some(query@),
        opt_chars(None) is None,
{
}

/// A request is let in if and only if it carries the gateway's key and its body is no longer
/// than allowed; without the key it is told so, whatever its body.
pub proof fn a_request_is_let_in_by_key_and_size(
    gateway: GatewayConfig,
    pairs: Seq<(Seq<char>, Seq<char>)>,
    x_api_key: Option<Seq<char>>,
    authorization: Option<Seq<char>>,
    body_len: usize,
)
    ensures
        ({
            let known = authorized(gateway.api_key@, pairs, x_api_key, authorization);
            let checked = entry_check(&gateway, pairs, x_api_key, authorization, body_len);
            &&& known && body_len <= gateway.max_body_bytes ==> checked == Ok::<(), ProxyError>(())
            &&& known && body_len > gateway.max_body_bytes ==> checked == Err::<(), ProxyError>(
                ProxyError::PayloadTooLarge,
            )
            &&& !known ==> checked == Err::<(), ProxyError>(ProxyError::Unauthorized)
        }),
{
}

/// A header is withheld if and only if, in small letters, it is one of these: nine for a single
/// hop, two for the gateway alone.
pub proof fn headers_that_are_withheld(name: Seq<char>)
    ensures
        ({
            let small = name.map_values(|c: char| ascii_lower(c));
            &&& hop_by_hop(name) <==> small == "connection"@ || small == "keep-alive"@ || small
                == "proxy-authenticate"@ || small == "proxy-authorization"@ || small == "te"@
                || small == "trailer"@ || small == "transfer-encoding"@ || small == "upgrade"@
                || small == "host"@
            &&& gateway_auth(name) <==> small == "x-api-key"@ || small == "authorization"@
        }),
{
    reveal_strlit("connection");
    reveal_strlit("keep-alive");
    reveal_strlit("proxy-authenticate");
    reveal_strlit("proxy-authorization");
    reveal_strlit("te");
    reveal_strlit("trailer");
    reveal_strlit("transfer-encoding");
    reveal_strlit("upgrade");
    reveal_strlit("host");
    reveal_strlit("x-api-key");
    reveal_strlit("authorization");
    lemma_small(name, "connection"@);
    lemma_small(name, "keep-alive"@);
    lemma_small(name, "proxy-authenticate"@);
    lemma_small(name, "proxy-authorization"@);
    lemma_small(name, "te"@);
    lemma_small(name, "trailer"@);
    lemma_small(name, "transfer-encoding"@);
    lemma_small(name, "upgrade"@);
    lemma_small(name, "host"@);
    lemma_small(name, "x-api-key"@);
    lemma_small(name, "authorization"@);
}

proof fn lemma_small(name: Seq<char>, word: Seq<char>)
    requires
        forall|i: int| 0 <= i < word.len() ==> ascii_lower(#[trigger] word[i]) == word[i],
    ensures
        equal_ignoring_case(name, word) <==> name.map_values(|c: char| ascii_lower(c)) == word,
{
    let small = name.map_values(|c: char| ascii_lower(c));
    if equal_ignoring_case(name, word) {
        assert(small =~= word);
    }
    if small == word {
        assert(small.len() == name.len());
        assert forall|i: int| 0 <= i < name.len() implies ascii_lower(#[trigger] name[i])
            == ascii_lower(word[i]) by {
            assert(small[i] == ascii_lower(name[i]));
        }
    }
}

/// What becomes of a key that was pinged, field by field. A 429: the cooldown starts, the
/// backoff goes one step up, the limit is counted, and nothing is charged. Any other status:
/// the cost is charged, and nothing else changes. No answer: nothing changes.
pub proof fn a_pinged_key_field_by_field(up: Upstream, code: u16, cost: u64, now_ms: u64)
    ensures
        pinged(up, None, cost, now_ms) == up,
        ({
            let after = pinged(up, Some(code), cost, now_ms);
            &&& code == 429 ==> after == (Upstream {
                cooldown_until: up.tripped(now_ms).cooldown_until,
                backoff_step: after.backoff_step,
                requests_rate_limited: after.requests_rate_limited,
                rate_limit_hits: after.rate_limit_hits,
                ..up
            }) && after.backoff_step == (up.backoff_step + 1) % 0x1_0000_0000
                && after.requests_rate_limited == (up.requests_rate_limited + 1)
                % 0x1_0000_0000_0000_0000 && after.rate_limit_hits == (up.rate_limit_hits + 1)
                % 0x1_0000_0000_0000_0000
            &&& code != 429 ==> after == (Upstream {
                credits_used: after.credits_used,
                credits_total: after.credits_total,
                ..up
            }) && after.credits_used == (up.credits_used + cost) % 0x1_0000_0000_0000_0000
                && after.credits_total == (up.credits_total + cost) % 0x1_0000_0000_0000_0000
        }),
{
}

} // verus!
