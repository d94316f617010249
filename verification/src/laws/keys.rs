//! What happens to a key.

use vstd::arithmetic::power2::{lemma2_to64, lemma_pow2_adds, lemma_pow2_pos, pow2};
use vstd::prelude::*;

use crate::config::{RpsConfig, UpstreamConfig};
use crate::credits::MethodClass;
use crate::ratelimit::{
    backoff, backoff_base, backoff_grows_to_its_cap, bucket_grants, bucket_rate, configured_rps,
    jitter_stays_within_a_quarter, lemma_backoff_base, Limiters,
};
use crate::upstream::{
    day_code, first_named, is_day_code, is_month_code, less, month_code, Upstream, UpstreamStat,
};

verus! {

/// A charge adds its cost to what the key used this month and to what it was ever charged, and
/// changes nothing else.
pub proof fn a_charge_adds_its_cost(up: Upstream, cost: u64)
    ensures
        up.credits_used + cost <= u64::MAX ==> up.charged(cost).credits_used == up.credits_used
            + cost,
        up.credits_used + cost > u64::MAX ==> up.charged(cost).credits_used == up.credits_used
            + cost - u64::MAX - 1,
        up.credits_total + cost <= u64::MAX ==> up.charged(cost).credits_total == up.credits_total
            + cost,
        up.credits_total + cost > u64::MAX ==> up.charged(cost).credits_total == up.credits_total
            + cost - u64::MAX - 1,
        (Upstream {
            credits_used: up.credits_used,
            credits_total: up.credits_total,
            ..up.charged(cost)
        }) == up,
{
}

/// Two charges come to the same as one of their sum.
pub proof fn charges_add_up(up: Upstream, a: u64, b: u64)
    requires
        a + b <= u64::MAX,
    ensures
        up.charged(a).charged(b) == up.charged((a + b) as u64),
{
}

/// Every rate limit raises the backoff by exactly one step, whatever the time and whatever the
/// cooldown before. The key then cools from now on, for the base of the step it was at, give or
/// take a quarter: a second, doubled at each step, up to thirty seconds. Nothing else changes.
pub proof fn every_rate_limit_raises_the_backoff(up: Upstream, now_ms: u64)
    ensures
        up.backoff_step < u32::MAX ==> up.tripped(now_ms).backoff_step == up.backoff_step + 1,
        up.backoff_step == u32::MAX ==> up.tripped(now_ms).backoff_step == 0,
        up.tripped(now_ms).cooldown_until == (now_ms + backoff(
            up.backoff_step as nat,
            now_ms as int,
        )) % 0x1_0000_0000_0000_0000,
        now_ms <= u64::MAX - 37_500 ==> {
            let wait = up.tripped(now_ms).cooldown_until - now_ms;
            let base = if 1000 * pow2(up.backoff_step as nat) < 30_000 {
                1000 * pow2(up.backoff_step as nat)
            } else {
                30_000
            };
            3 * base <= 4 * wait <= 5 * base
        },
        (Upstream {
            backoff_step: up.backoff_step,
            cooldown_until: up.cooldown_until,
            ..up.tripped(now_ms)
        }) == up,
{
    lemma_base(up.backoff_step as nat);
    backoff_grows_to_its_cap(up.backoff_step as nat);
    jitter_stays_within_a_quarter(up.backoff_step as nat, now_ms as int);
}

proof fn lemma_base(step: nat)
    ensures
        backoff_base(step) == (if 1000 * pow2(step) < 30_000 {
            1000 * pow2(step) as int
        } else {
            30_000
        }),
{
    lemma2_to64();
    lemma_backoff_base(step);
    if step >= 5 {
        lemma_pow2_adds(5, (step - 5) as nat);
        lemma_pow2_pos((step - 5) as nat);
        assert(pow2(step) >= 32) by (nonlinear_arith)
            requires
                pow2(step) == 32 * pow2((step - 5) as nat),
                pow2((step - 5) as nat) >= 1,
        ;
    }
}

/// Rate limits in a row: after the n-th without a success between, the backoff is n, and the
/// n-th cooldown is a second doubled n - 1 times, up to thirty seconds, give or take a quarter.
/// When the rate limits come, and how far apart, is of no account.
pub proof fn rate_limits_in_a_row_double_the_cooldown(
    states: Seq<Upstream>,
    times: Seq<u64>,
    n: int,
)
    requires
        1 <= n < states.len(),
        n <= times.len(),
        n < u32::MAX,
        states[0].backoff_step == 0,
        forall|k: int|
            #![trigger states[k]]
            0 <= k < n ==> states[k + 1] == states[k].tripped(times[k]),
        times[n - 1] <= u64::MAX - 37_500,
    ensures
        states[n].backoff_step == n,
        ({
            let wait = states[n].cooldown_until - times[n - 1];
            let base = if 1000 * pow2((n - 1) as nat) < 30_000 {
                1000 * pow2((n - 1) as nat)
            } else {
                30_000
            };
            3 * base <= 4 * wait <= 5 * base
        }),
{
    lemma_steps(states, times, n - 1);
    assert(states[n] == states[n - 1].tripped(times[n - 1]));
    every_rate_limit_raises_the_backoff(states[n - 1], times[n - 1]);
}

proof fn lemma_steps(states: Seq<Upstream>, times: Seq<u64>, n: int)
    requires
        0 <= n < states.len(),
        n <= times.len(),
        n < u32::MAX,
        states[0].backoff_step == 0,
        forall|k: int|
            #![trigger states[k]]
            0 <= k < n ==> states[k + 1] == states[k].tripped(times[k]),
    ensures
        states[n].backoff_step == n,
    decreases n,
{
    if n > 0 {
        lemma_steps(states, times, n - 1);
        assert(states[n] == states[n - 1].tripped(times[n - 1]));
    }
}

/// A cooldown is three quarters of its base, and then what the time leaves over when half the
/// base is taken off it as often as it goes in: so that keys limited at different times come
/// back at different times.
pub proof fn cooldowns_are_spread_by_the_time(step: nat, now_ms: nat)
    ensures
        ({
            let base = if 1000 * pow2(step) < 30_000 {
                1000 * pow2(step) as int
            } else {
                30_000
            };
            &&& backoff(step, 0) == base - base / 4
            &&& backoff(step, now_ms as int) == backoff(step, 0) + now_ms as int % (base / 2)
        }),
{
    lemma_base(step);
    lemma_backoff_base(step);
    backoff_grows_to_its_cap(step);
}

/// A success takes the backoff to zero and changes nothing else: a cooldown runs on, and the
/// next rate limit begins at a second again.
pub proof fn a_success_takes_the_backoff_to_zero(up: Upstream)
    ensures
        up.recovered().backoff_step == 0,
        (Upstream { backoff_step: up.backoff_step, ..up.recovered() }) == up,
{
}

/// Each outcome is counted under its own counter, by one, and moves nothing else. A rate limit
/// counts both as an outcome and as a hit.
pub proof fn outcomes_are_counted_apart(up: Upstream)
    ensures
        up.counted_ok() == (Upstream { requests_ok: up.counted_ok().requests_ok, ..up }),
        up.counted_rate_limited() == (Upstream {
            requests_rate_limited: up.counted_rate_limited().requests_rate_limited,
            rate_limit_hits: up.counted_rate_limited().rate_limit_hits,
            ..up
        }),
        up.counted_error() == (Upstream { requests_error: up.counted_error().requests_error, ..up }),
        up.busier() == (Upstream { in_flight: up.busier().in_flight, ..up }),
        up.counted_ok().requests_ok == (up.requests_ok + 1) % 0x1_0000_0000_0000_0000,
        up.counted_rate_limited().requests_rate_limited == (up.requests_rate_limited + 1)
            % 0x1_0000_0000_0000_0000,
        up.counted_rate_limited().rate_limit_hits == (up.rate_limit_hits + 1)
            % 0x1_0000_0000_0000_0000,
        up.counted_error().requests_error == (up.requests_error + 1) % 0x1_0000_0000_0000_0000,
        up.busier().in_flight == (up.in_flight + 1) % 0x1_0000_0000,
        up.busier().idler() == up,
{
}

/// A new month sets the month and what was used in it, a new day sets the day's baseline to
/// what was ever charged; neither changes anything else.
pub proof fn a_new_period_sets_its_own_fields(up: Upstream, month: u32, used: u64)
    ensures
        up.in_month(month, used).epoch_yyyymm == month,
        up.in_month(month, used).credits_used == used,
        (Upstream {
            epoch_yyyymm: up.epoch_yyyymm,
            credits_used: up.credits_used,
            ..up.in_month(month, used)
        }) == up,
        up.rebased().day_start_total == up.credits_total,
        (Upstream { day_start_total: up.day_start_total, ..up.rebased() }) == up,
{
}

/// What remains is the cap less what was used, and never less than nothing; what was used today
/// is what was charged since the baseline; a cost is affordable while it stays within the cap;
/// a key cools while the end of its cooldown lies ahead.
pub proof fn what_a_key_has_left(up: Upstream, cost: u64, now_ms: u64)
    ensures
        up.credits_used <= up.credit_cap ==> up.remaining() == up.credit_cap - up.credits_used,
        up.credits_used > up.credit_cap ==> up.remaining() == 0,
        up.day_start_total <= up.credits_total ==> up.used_today() == up.credits_total
            - up.day_start_total,
        up.day_start_total > up.credits_total ==> up.used_today() == 0,
        up.credit_cap < u64::MAX ==> (up.affords(cost) <==> up.credits_used + cost
            <= up.credit_cap),
        up.credit_cap == u64::MAX ==> up.affords(cost),
        up.credits_used <= up.credit_cap < u64::MAX ==> (up.affords(cost) <==> cost
            <= up.remaining()),
        up.cooling(now_ms) <==> up.cooldown_until > now_ms,
        up.cooldown_until >= now_ms ==> less(up.cooldown_until, now_ms) == up.cooldown_until
            - now_ms,
        up.cooldown_until < now_ms ==> less(up.cooldown_until, now_ms) == 0,
        up.available(cost, now_ms) <==> up.enabled && (up.credits_used + cost <= up.credit_cap
            || up.credit_cap == u64::MAX) && up.cooldown_until <= now_ms,
{
}

/// A key starts with its name, its secret, its cap and its switch from the configuration, and
/// with nothing used, counted, cooling or in flight.
pub proof fn a_key_starts_with_nothing_used(up: Upstream, c: UpstreamConfig, rps: RpsConfig)
    requires
        up.starts_as(&c, &rps),
    ensures
        up.name@ == c.name@,
        up.api_key@ == c.api_key@,
        up.enabled == c.enabled,
        up.credit_cap == c.credit_cap,
        up.credits_used == 0,
        up.credits_total == 0,
        up.day_start_total == 0,
        up.epoch_yyyymm == 0,
        up.cooldown_until == 0,
        up.backoff_step == 0,
        up.in_flight == 0,
        up.requests_ok == 0,
        up.requests_rate_limited == 0,
        up.requests_error == 0,
        up.rate_limit_hits == 0,
{
}

/// A class is limited if and only if its configured rate is above zero, by a bucket of its own
/// that is made for that rate and is still full.
pub proof fn a_fresh_bucket_is_made_for_the_configured_rate(limiters: Limiters, rps: RpsConfig)
    requires
        limiters.fresh(&rps),
    ensures
        limiters.bucket(MethodClass::StandardRpc) is Some <==> rps.standard_rpc > 0,
        limiters.bucket(MethodClass::SendTransaction) is Some <==> rps.send_transaction > 0,
        limiters.bucket(MethodClass::GetProgramAccounts) is Some <==> rps.get_program_accounts > 0,
        limiters.bucket(MethodClass::Das) is Some <==> rps.das > 0,
        limiters.bucket(MethodClass::Zk) is Some <==> rps.zk > 0,
        limiters.bucket(MethodClass::StandardRpc) matches Some(b) ==> bucket_rate(b)
            == rps.standard_rpc && bucket_grants(b) == 0,
        limiters.bucket(MethodClass::SendTransaction) matches Some(b) ==> bucket_rate(b)
            == rps.send_transaction && bucket_grants(b) == 0,
        limiters.bucket(MethodClass::GetProgramAccounts) matches Some(b) ==> bucket_rate(b)
            == rps.get_program_accounts && bucket_grants(b) == 0,
        limiters.bucket(MethodClass::Das) matches Some(b) ==> bucket_rate(b) == rps.das
            && bucket_grants(b) == 0,
        limiters.bucket(MethodClass::Zk) matches Some(b) ==> bucket_rate(b) == rps.zk
            && bucket_grants(b) == 0,
{
}

/// A token is granted for sure while the bucket has granted fewer than its rate, and always
/// where the class has no bucket. Asking for one changes the bucket of that class alone, which
/// counts what it grants.
pub proof fn tokens_come_from_the_bucket_of_their_class(
    before: Limiters,
    after: Limiters,
    class: MethodClass,
    other: MethodClass,
    granted: bool,
)
    requires
        before.drawn(&after, class, granted),
        other != class,
    ensures
        before.must_grant(class) <==> (before.bucket(class) matches Some(b) ==> bucket_grants(b)
            < bucket_rate(b)),
        after.bucket(other) == before.bucket(other),
        before.bucket(class) is None ==> granted && after.bucket(class) is None,
        before.bucket(class) matches Some(b) ==> {
            &&& after.bucket(class) is Some
            &&& bucket_rate(after.bucket(class)->0) == bucket_rate(b)
            &&& granted ==> bucket_grants(after.bucket(class)->0) == bucket_grants(b) + 1
            &&& !granted ==> bucket_grants(after.bucket(class)->0) == bucket_grants(b)
        },
{
}

/// A month and a day can be read off their codes, and later ones have greater codes.
pub proof fn codes_are_read_as_dates(
    year: int,
    month: int,
    day: int,
    next_year: int,
    next_month: int,
    next_day: int,
)
    requires
        0 <= year <= next_year <= 9999,
        1 <= month <= 12,
        1 <= next_month <= 12,
        1 <= day <= 31,
        1 <= next_day <= 31,
    ensures
        month_code(year, month) / 100 == year,
        month_code(year, month) % 100 == month,
        day_code(year, month, day) / 100 == month_code(year, month),
        day_code(year, month, day) % 100 == day,
        year < next_year || year == next_year && month < next_month ==> month_code(year, month)
            < month_code(next_year, next_month),
        year < next_year || year == next_year && (month < next_month || month == next_month && day
            < next_day) ==> day_code(year, month, day) < day_code(
            next_year,
            next_month,
            next_day,
        ),
{
}

/// A code is the decimal digits of the year, then two of the month, then two of the day; a year
/// that is too great or below zero runs over.
pub proof fn codes_are_digits_in_a_row(year: int, month: int, day: int, code: u32)
    ensures
        month_code(year, month) == (100 * year + month) % 0x1_0000_0000,
        day_code(year, month, day) == (100 * (100 * year + month) + day) % 0x1_0000_0000,
        is_month_code(code) <==> exists|y: int, m: int|
            -999_999 <= y <= 999_999 && 1 <= m <= 12 && #[trigger] month_code(y, m) == code,
        is_day_code(code) <==> exists|y: int, m: int, d: int|
            -999_999 <= y <= 999_999 && 1 <= m <= 12 && 1 <= d <= 31 && #[trigger] day_code(y, m, d)
                == code,
{
}

/// What is shown of a key is what it is: its counters as they are, what remains of its cap, and
/// how long its cooldown still lasts.
pub proof fn a_stat_shows_the_key(stat: UpstreamStat, up: Upstream, now_ms: u64)
    requires
        stat.describes(&up, now_ms),
    ensures
        stat.name@ == up.name@,
        stat.credits_used == up.credits_used,
        stat.credit_cap == up.credit_cap,
        up.credits_used <= up.credit_cap ==> stat.remaining + stat.credits_used == up.credit_cap,
        up.credits_used > up.credit_cap ==> stat.remaining == 0,
        stat.credits_total == up.credits_total,
        stat.requests_ok == up.requests_ok,
        stat.requests_rate_limited == up.requests_rate_limited,
        stat.requests_error == up.requests_error,
        stat.rate_limit_hits == up.rate_limit_hits,
        stat.in_flight == up.in_flight,
        up.cooldown_until >= now_ms ==> now_ms + stat.cooldown_ms_left == up.cooldown_until,
        up.cooldown_until < now_ms ==> stat.cooldown_ms_left == 0,
        stat.enabled == up.enabled,
{
}

/// The first key of a name has that name, no key before it has, and there is one if any key has
/// the name.
pub proof fn a_name_is_found_at_its_first_key(ups: Seq<Upstream>, name: Seq<char>, i: int, j: int)
    requires
        first_named(ups, name, i),
        0 <= j < ups.len(),
    ensures
        0 <= i < ups.len(),
        ups[i].name@ == name,
        ups[j].name@ == name ==> i <= j,
{
}

/// The lifetime counters are the ones that no month resets, and setting them sets each of them
/// and nothing else.
pub proof fn lifetime_counters_are_set_one_by_one(up: Upstream, from: Upstream)
    ensures
        up.with_lifetime(from.lifetime()) == (Upstream {
            credits_total: from.credits_total,
            requests_ok: from.requests_ok,
            requests_rate_limited: from.requests_rate_limited,
            requests_error: from.requests_error,
            rate_limit_hits: from.rate_limit_hits,
            day_start_total: from.day_start_total,
            ..up
        }),
{
}

/// The limit of each class is the one configured under its name.
pub proof fn limits_are_configured_by_class(rps: RpsConfig)
    ensures
        configured_rps(&rps, MethodClass::StandardRpc) == rps.standard_rpc,
        configured_rps(&rps, MethodClass::SendTransaction) == rps.send_transaction,
        configured_rps(&rps, MethodClass::GetProgramAccounts) == rps.get_program_accounts,
        configured_rps(&rps, MethodClass::Das) == rps.das,
        configured_rps(&rps, MethodClass::Zk) == rps.zk,
{
}

} // verus!
