//! Upstream key pool and selection.
//!
//! Each [`Upstream`] holds the runtime state for one Helius api-key.
//! [`Pool::select`] performs round-robin selection that skips keys which
//! are disabled, over monthly quota, on rate-limit cooldown, or out of RPS
//! tokens for the request's method class. Counters have a fixed width and wrap.

use vstd::arithmetic::div_mod::{
    lemma_add_mod_noop, lemma_add_mod_noop_right, lemma_fundamental_div_mod,
    lemma_mod_equivalence, lemma_mod_multiples_vanish, lemma_small_mod,
};
use vstd::prelude::*;

use crate::config::{RpsConfig, UpstreamConfig};
use crate::credits::MethodClass;
use crate::ratelimit::{
    backoff, backoff_grows_to_its_cap, backoff_with_jitter, bucket_grants, bucket_rate,
    build_limiters, jitter_stays_within_a_quarter, Limiters,
};
use crate::text::same_text;

verus! {

/// `time::OffsetDateTime::now_utc`, as year, month and day of the month. The clock decides;
/// all that is claimed is the range of a year, which is that of `time::Date`, of a month and of
/// a day.
#[verifier::external_body]
fn utc_date() -> (date: (i32, u8, u8))
    ensures
        -999_999 <= date.0 <= 999_999,
        1 <= date.1 <= 12,
        1 <= date.2 <= 31,
{
    let now = time::OffsetDateTime::now_utc();
    (now.year(), u8::from(now.month()), now.day())
}

/// A month encoded as `YYYYMM` (e.g. June 2026 → 202606), modulo 2^32.
pub open spec fn month_code(year: int, month: int) -> int {
    (year * 100 + month) % 0x1_0000_0000
}

/// A day encoded as `YYYYMMDD` (e.g. 2026-06-25 → 20260625), modulo 2^32.
pub open spec fn day_code(year: int, month: int, day: int) -> int {
    (year * 10_000 + month * 100 + day) % 0x1_0000_0000
}

/// Encodes a month as `YYYYMM`.
pub fn yyyymm(year: i32, month: u8) -> (code: u32)
    ensures
        code == month_code(year as int, month as int),
{
    proof {
        lemma_low_bits(year);
    }
    (year as u32).wrapping_mul(100).wrapping_add(month as u32)
}

/// Encodes a day as `YYYYMMDD`.
pub fn yyyymmdd(year: i32, month: u8, day: u8) -> (code: u32)
    ensures
        code == day_code(year as int, month as int, day as int),
{
    let years: u32 = (year as u32).wrapping_mul(10_000);
    let months: u32 = years.wrapping_add(month as u32 * 100);
    proof {
        lemma_low_bits(year);
        lemma_mod_multiples_vanish(10_000, year * 10_000, 0x1_0000_0000);
        assert(years == (year * 10_000) % 0x1_0000_0000);
        lemma_add_mod_noop(year * 10_000, month * 100, 0x1_0000_0000);
        assert(months == (year * 10_000 + month * 100) % 0x1_0000_0000);
        lemma_add_mod_noop(year * 10_000 + month * 100, day as int, 0x1_0000_0000);
    }
    months.wrapping_add(day as u32)
}

proof fn lemma_low_bits(year: i32)
    ensures
        year >= 0 ==> year as u32 == year,
        year < 0 ==> year as u32 == year + 0x1_0000_0000,
{
    assert(year >= 0 ==> year as u32 == year) by (bit_vector);
    assert(year < 0 ==> year as u32 == year + 0x1_0000_0000) by (bit_vector);
}

/// Whether a code is that of a month in a year that the calendar holds.
pub open spec fn is_month_code(code: u32) -> bool {
    exists|year: int, month: int|
        -999_999 <= year <= 999_999 && 1 <= month <= 12 && code == #[trigger] month_code(
            year,
            month,
        )
}

/// Whether a code is that of a day in a year that the calendar holds.
pub open spec fn is_day_code(code: u32) -> bool {
    exists|year: int, month: int, day: int|
        -999_999 <= year <= 999_999 && 1 <= month <= 12 && 1 <= day <= 31 && code
            == #[trigger] day_code(year, month, day)
}

/// Current UTC month encoded as `YYYYMM` (e.g. June 2026 → 202606).
pub fn current_yyyymm() -> (code: u32)
    ensures
        is_month_code(code),
{
    let (year, month, _) = utc_date();
    yyyymm(year, month)
}

/// Current UTC day encoded as `YYYYMMDD` (e.g. 2026-06-25 → 20260625).
pub fn current_yyyymmdd() -> (code: u32)
    ensures
        is_day_code(code),
{
    let (year, month, day) = utc_date();
    yyyymmdd(year, month, day)
}

/// No month is encoded as zero, and no day is: zero stands for a period not yet entered.
pub proof fn no_period_is_zero(code: u32)
    ensures
        is_month_code(code) ==> code != 0,
        is_day_code(code) ==> code != 0,
{
    if is_month_code(code) {
        let (year, month) = choose|year: int, month: int|
            -999_999 <= year <= 999_999 && 1 <= month <= 12 && code == #[trigger] month_code(
                year,
                month,
            );
        lemma_no_multiple(year * 100 + month, 100, year, month);
    }
    if is_day_code(code) {
        let (year, month, day) = choose|year: int, month: int, day: int|
            -999_999 <= year <= 999_999 && 1 <= month <= 12 && 1 <= day <= 31 && code
                == #[trigger] day_code(year, month, day);
        lemma_no_multiple(year * 10_000 + month * 100 + day, 10_000, year, month * 100 + day);
    }
}

proof fn lemma_no_multiple(sum: int, unit: int, year: int, rest: int)
    requires
        -999_999 <= year <= 999_999,
        unit == 100 && 1 <= rest <= 12 || unit == 10_000 && 101 <= rest <= 1231,
        sum == year * unit + rest,
    ensures
        sum % 0x1_0000_0000 != 0,
{
    if sum % 0x1_0000_0000 == 0 {
        let q = sum / 0x1_0000_0000;
        assert(sum == 0x1_0000_0000 * q);
        if unit == 100 {
            assert(-100_000_000 < sum < 100_000_000);
            assert(q == 0);
        } else {
            assert(-10_000_000_000 < sum < 10_000_000_000);
            assert(-3 <= q <= 2);
            assert(q == -3 || q == -2 || q == -1 || q == 0 || q == 1 || q == 2);
        }
    }
}

/// A string that never reveals itself in debug output.
#[derive(Clone)]
pub struct SecretString(String);

impl View for SecretString {
    type V = Seq<char>;

    closed spec fn view(&self) -> Seq<char> {
        self.0@
    }
}

impl SecretString {
    /// The secret itself.
    pub fn expose(&self) -> (secret: &str)
        ensures
            secret@ == self@,
    {
        self.0.as_str()
    }

    /// What stands for the secret in debug output, the same for every secret.
    pub fn redacted(&self) -> (text: &str)
        ensures
            text@ == "\"<redacted>\""@,
    {
        "\"<redacted>\""
    }
}

impl vstd::std_specs::convert::FromSpecImpl<String> for SecretString {
    open spec fn obeys_from_spec() -> bool {
        true
    }

    closed spec fn from_spec(s: String) -> SecretString {
        SecretString(s)
    }
}

impl From<String> for SecretString {
    fn from(s: String) -> (secret: SecretString)
        ensures
            secret@ == s@,
    {
        SecretString(s)
    }
}

/// Runtime state for a single upstream Helius key.
pub struct Upstream {
    pub name: String,
    pub api_key: SecretString,
    pub credit_cap: u64,
    /// Credits consumed this UTC month (authoritative).
    pub credits_used: u64,
    /// `YYYYMM` epoch guarding the monthly reset.
    pub epoch_yyyymm: u32,
    /// Unix-millis until which this key is on rate-limit cooldown (0 = available).
    pub cooldown_until: u64,
    /// Current exponential-backoff exponent.
    pub backoff_step: u32,
    /// In-flight requests currently routed to this key.
    pub in_flight: u32,
    pub enabled: bool,
    // ---- lifetime counters: never reset (basis for /metrics + history) ----
    /// Total credits ever charged to this key (across all months).
    pub credits_total: u64,
    pub requests_ok: u64,
    pub requests_rate_limited: u64,
    pub requests_error: u64,
    pub rate_limit_hits: u64,
    /// Lifetime `credits_total` as of the start of the current day; daily usage
    /// is `credits_total - day_start_total`.
    pub day_start_total: u64,
    /// Proactive RPS token buckets, one per method class.
    pub limiters: Limiters,
}

/// What a key counts over its lifetime, with the baseline of the day.
pub struct Lifetime {
    pub credits_total: u64,
    pub requests_ok: u64,
    pub requests_rate_limited: u64,
    pub requests_error: u64,
    pub rate_limit_hits: u64,
    pub day_start_total: u64,
}

/// `a - b`, or zero where that would be negative.
pub open spec fn less(a: u64, b: u64) -> u64 {
    if a >= b {
        (a - b) as u64
    } else {
        0
    }
}

impl Upstream {
    /// Credits left this month.
    pub open spec fn remaining(&self) -> u64 {
        less(self.credit_cap, self.credits_used)
    }

    /// Credits charged since the day began.
    pub open spec fn used_today(&self) -> u64 {
        less(self.credits_total, self.day_start_total)
    }

    /// Whether `cost` more credits stay within the cap. A sum that does not fit its width
    /// counts as the largest number that does.
    pub open spec fn affords(&self, cost: u64) -> bool {
        self.credits_used + cost <= self.credit_cap || self.credit_cap == u64::MAX
    }

    /// Whether this key is on cooldown.
    pub open spec fn cooling(&self, now_ms: u64) -> bool {
        self.cooldown_until > now_ms
    }

    /// Whether this key may serve a request of that cost, if it has a token for it.
    pub open spec fn available(&self, cost: u64, now_ms: u64) -> bool {
        self.enabled && self.affords(cost) && !self.cooling(now_ms)
    }

    /// Whether `self` and `other` differ in their token buckets at most.
    pub open spec fn same_but_buckets(&self, other: &Upstream) -> bool {
        *self == (Upstream { limiters: self.limiters, ..*other })
    }

    /// Whether this is the state in which a configured key starts.
    pub open spec fn starts_as(&self, c: &UpstreamConfig, rps: &RpsConfig) -> bool {
        &&& self.name@ == c.name@
        &&& self.api_key@ == c.api_key@
        &&& self.credit_cap == c.credit_cap
        &&& self.enabled == c.enabled
        &&& self.credits_used == 0
        &&& self.epoch_yyyymm == 0
        &&& self.cooldown_until == 0
        &&& self.backoff_step == 0
        &&& self.in_flight == 0
        &&& self.credits_total == 0
        &&& self.requests_ok == 0
        &&& self.requests_rate_limited == 0
        &&& self.requests_error == 0
        &&& self.rate_limit_hits == 0
        &&& self.day_start_total == 0
        &&& self.limiters.fresh(rps)
    }

    /// This key with `cost` credits more on both counters.
    pub open spec fn charged(&self, cost: u64) -> Upstream {
        Upstream {
            credits_total: self.credits_total.wrapping_add(cost),
            credits_used: self.credits_used.wrapping_add(cost),
            ..*self
        }
    }

    /// This key with its cooldown started and its backoff one step up.
    pub open spec fn tripped(&self, now_ms: u64) -> Upstream {
        Upstream {
            backoff_step: self.backoff_step.wrapping_add(1),
            cooldown_until: now_ms.wrapping_add(
                backoff(self.backoff_step as nat, now_ms as int) as u64,
            ),
            ..*self
        }
    }

    /// This key with its backoff reset.
    pub open spec fn recovered(&self) -> Upstream {
        Upstream { backoff_step: 0, ..*self }
    }

    /// This key with one more request counted as serviced.
    pub open spec fn counted_ok(&self) -> Upstream {
        Upstream { requests_ok: self.requests_ok.wrapping_add(1), ..*self }
    }

    /// This key with one more rate-limited response counted.
    pub open spec fn counted_rate_limited(&self) -> Upstream {
        Upstream {
            requests_rate_limited: self.requests_rate_limited.wrapping_add(1),
            rate_limit_hits: self.rate_limit_hits.wrapping_add(1),
            ..*self
        }
    }

    /// This key with one more transient error counted.
    pub open spec fn counted_error(&self) -> Upstream {
        Upstream { requests_error: self.requests_error.wrapping_add(1), ..*self }
    }

    /// This key with its day begun anew.
    pub open spec fn rebased(&self) -> Upstream {
        Upstream { day_start_total: self.credits_total, ..*self }
    }

    /// This key in `month`, with that many credits used in it.
    pub open spec fn in_month(&self, month: u32, used: u64) -> Upstream {
        Upstream { epoch_yyyymm: month, credits_used: used, ..*self }
    }

    /// What this key counts over its lifetime.
    pub open spec fn lifetime(&self) -> Lifetime {
        Lifetime {
            credits_total: self.credits_total,
            requests_ok: self.requests_ok,
            requests_rate_limited: self.requests_rate_limited,
            requests_error: self.requests_error,
            rate_limit_hits: self.rate_limit_hits,
            day_start_total: self.day_start_total,
        }
    }

    /// This key with those lifetime counts.
    pub open spec fn with_lifetime(&self, life: Lifetime) -> Upstream {
        Upstream {
            credits_total: life.credits_total,
            requests_ok: life.requests_ok,
            requests_rate_limited: life.requests_rate_limited,
            requests_error: life.requests_error,
            rate_limit_hits: life.rate_limit_hits,
            day_start_total: life.day_start_total,
            ..*self
        }
    }

    /// This key with one more request in flight.
    pub open spec fn busier(&self) -> Upstream {
        Upstream { in_flight: self.in_flight.wrapping_add(1), ..*self }
    }

    /// This key with one request in flight less.
    pub open spec fn idler(&self) -> Upstream {
        Upstream { in_flight: self.in_flight.wrapping_sub(1), ..*self }
    }

    pub fn from_config(c: &UpstreamConfig, rps: &RpsConfig) -> (up: Self)
        ensures
            up.starts_as(c, rps),
    {
        Upstream {
            name: c.name.clone(),
            api_key: SecretString::from(c.api_key.clone()),
            credit_cap: c.credit_cap,
            credits_used: 0,
            epoch_yyyymm: 0,
            cooldown_until: 0,
            backoff_step: 0,
            in_flight: 0,
            enabled: c.enabled,
            credits_total: 0,
            requests_ok: 0,
            requests_rate_limited: 0,
            requests_error: 0,
            rate_limit_hits: 0,
            day_start_total: 0,
            limiters: build_limiters(rps),
        }
    }

    pub fn credits_used(&self) -> (credits: u64)
        ensures
            credits == self.credits_used,
    {
        self.credits_used
    }

    pub fn credits_total(&self) -> (credits: u64)
        ensures
            credits == self.credits_total,
    {
        self.credits_total
    }

    pub fn requests_ok(&self) -> (n: u64)
        ensures
            n == self.requests_ok,
    {
        self.requests_ok
    }

    pub fn requests_rate_limited(&self) -> (n: u64)
        ensures
            n == self.requests_rate_limited,
    {
        self.requests_rate_limited
    }

    pub fn requests_error(&self) -> (n: u64)
        ensures
            n == self.requests_error,
    {
        self.requests_error
    }

    pub fn rate_limit_hits(&self) -> (n: u64)
        ensures
            n == self.rate_limit_hits,
    {
        self.rate_limit_hits
    }

    pub fn day_start_total(&self) -> (credits: u64)
        ensures
            credits == self.day_start_total,
    {
        self.day_start_total
    }

    /// Credits used so far today (derived from the monotonic lifetime total).
    pub fn daily_used(&self) -> (credits: u64)
        ensures
            credits == self.used_today(),
    {
        self.credits_total.saturating_sub(self.day_start_total)
    }

    /// Re-baseline daily usage to the current lifetime total (day rollover).
    pub fn start_new_day(&mut self)
        ensures
            *final(self) == old(self).rebased(),
    {
        self.day_start_total = self.credits_total;
    }

    /// Restore the day baseline on boot.
    pub fn restore_day_start(&mut self, value: u64)
        ensures
            *final(self) == (Upstream { day_start_total: value, ..*old(self) }),
    {
        self.day_start_total = value;
    }

    /// Record a successful (serviced) request.
    pub fn record_ok(&mut self)
        ensures
            *final(self) == old(self).counted_ok(),
    {
        self.requests_ok = self.requests_ok.wrapping_add(1);
    }

    /// Record a rate-limited response (429 / -32005).
    pub fn record_rate_limited(&mut self)
        ensures
            *final(self) == old(self).counted_rate_limited(),
    {
        self.requests_rate_limited = self.requests_rate_limited.wrapping_add(1);
        self.rate_limit_hits = self.rate_limit_hits.wrapping_add(1);
    }

    /// Record a transient upstream error.
    pub fn record_error(&mut self)
        ensures
            *final(self) == old(self).counted_error(),
    {
        self.requests_error = self.requests_error.wrapping_add(1);
    }

    pub fn remaining_credits(&self) -> (credits: u64)
        ensures
            credits == self.remaining(),
    {
        self.credit_cap.saturating_sub(self.credits_used)
    }

    /// True if charging `cost` more credits would stay within the cap.
    pub fn has_quota_for(&self, cost: u64) -> (yes: bool)
        ensures
            yes == self.affords(cost),
    {
        self.credits_used.saturating_add(cost) <= self.credit_cap
    }

    /// Commit `cost` credits against this key, returning the new monthly total.
    /// Bumps both the monthly counter and the lifetime total.
    pub fn add_credits(&mut self, cost: u64) -> (used: u64)
        ensures
            *final(self) == old(self).charged(cost),
            used == final(self).credits_used,
    {
        self.credits_total = self.credits_total.wrapping_add(cost);
        self.credits_used = self.credits_used.wrapping_add(cost);
        self.credits_used
    }

    pub fn is_enabled(&self) -> (yes: bool)
        ensures
            yes == self.enabled,
    {
        self.enabled
    }

    /// Try to consume one RPS token for `class`. Unlimited classes always succeed.
    pub fn try_acquire(&mut self, class: MethodClass) -> (granted: bool)
        ensures
            final(self).same_but_buckets(old(self)),
            old(self).limiters.drawn(&final(self).limiters, class, granted),
            old(self).limiters.must_grant(class) ==> granted,
    {
        self.limiters.try_acquire(class)
    }

    pub fn in_cooldown(&self, now_ms: u64) -> (yes: bool)
        ensures
            yes == self.cooling(now_ms),
    {
        self.cooldown_until > now_ms
    }

    pub fn cooldown_remaining_ms(&self, now_ms: u64) -> (ms: u64)
        ensures
            ms == less(self.cooldown_until, now_ms),
    {
        self.cooldown_until.saturating_sub(now_ms)
    }

    /// Put this key on cooldown after a rate-limit response, growing the backoff.
    pub fn trip_cooldown(&mut self, now_ms: u64)
        ensures
            *final(self) == old(self).tripped(now_ms),
    {
        let step = self.backoff_step;
        self.backoff_step = step.wrapping_add(1);
        let dur = backoff_with_jitter(step, now_ms);
        self.cooldown_until = now_ms.wrapping_add(dur);
    }

    /// Reset the backoff after a successful response.
    pub fn note_success(&mut self)
        ensures
            *final(self) == old(self).recovered(),
    {
        if self.backoff_step != 0 {
            self.backoff_step = 0;
        }
    }

    /// Reset the monthly credit counter and set the month epoch (rollover/boot).
    /// Lifetime totals are preserved.
    pub fn reset_monthly(&mut self, cur_yyyymm: u32)
        ensures
            *final(self) == old(self).in_month(cur_yyyymm, 0),
    {
        self.epoch_yyyymm = cur_yyyymm;
        self.credits_used = 0;
    }

    /// Restore monthly usage and the month epoch on boot.
    pub fn restore_monthly(&mut self, cur_yyyymm: u32, credits_used: u64)
        ensures
            *final(self) == old(self).in_month(cur_yyyymm, credits_used),
    {
        self.epoch_yyyymm = cur_yyyymm;
        self.credits_used = credits_used;
    }

    /// Restore lifetime counters on boot.
    pub fn restore_lifetime(
        &mut self,
        credits_total: u64,
        requests_ok: u64,
        requests_rate_limited: u64,
        requests_error: u64,
        rate_limit_hits: u64,
    )
        ensures
            *final(self) == (Upstream {
                credits_total,
                requests_ok,
                requests_rate_limited,
                requests_error,
                rate_limit_hits,
                ..*old(self)
            }),
    {
        self.credits_total = credits_total;
        self.requests_ok = requests_ok;
        self.requests_rate_limited = requests_rate_limited;
        self.requests_error = requests_error;
        self.rate_limit_hits = rate_limit_hits;
    }

    /// Counts one more request in flight.
    pub fn request_started(&mut self)
        ensures
            *final(self) == old(self).busier(),
    {
        self.in_flight = self.in_flight.wrapping_add(1);
    }

    /// Counts one request in flight less.
    pub fn request_ended(&mut self)
        ensures
            *final(self) == old(self).idler(),
    {
        self.in_flight = self.in_flight.wrapping_sub(1);
    }

    /// A point-in-time snapshot for the `/stats` endpoint.
    pub fn stat(&self, now_ms: u64) -> (stat: UpstreamStat)
        ensures
            stat.describes(self, now_ms),
    {
        UpstreamStat {
            name: self.name.clone(),
            credits_used: self.credits_used(),
            credit_cap: self.credit_cap,
            remaining: self.remaining_credits(),
            credits_total: self.credits_total(),
            requests_ok: self.requests_ok(),
            requests_rate_limited: self.requests_rate_limited(),
            requests_error: self.requests_error(),
            rate_limit_hits: self.rate_limit_hits(),
            in_flight: self.in_flight,
            cooldown_ms_left: self.cooldown_remaining_ms(now_ms),
            enabled: self.is_enabled(),
        }
    }
}

/// Per-upstream view for `/stats`.
#[derive(Debug)]
pub struct UpstreamStat {
    pub name: String,
    /// Credits used this month (resets at the UTC month boundary).
    pub credits_used: u64,
    pub credit_cap: u64,
    pub remaining: u64,
    /// Lifetime credits ever charged (never resets).
    pub credits_total: u64,
    pub requests_ok: u64,
    pub requests_rate_limited: u64,
    pub requests_error: u64,
    pub rate_limit_hits: u64,
    pub in_flight: u32,
    pub cooldown_ms_left: u64,
    pub enabled: bool,
}

impl UpstreamStat {
    /// Whether this is what `up` shows at that time.
    pub open spec fn describes(&self, up: &Upstream, now_ms: u64) -> bool {
        &&& self.name@ == up.name@
        &&& self.credits_used == up.credits_used
        &&& self.credit_cap == up.credit_cap
        &&& self.remaining == up.remaining()
        &&& self.credits_total == up.credits_total
        &&& self.requests_ok == up.requests_ok
        &&& self.requests_rate_limited == up.requests_rate_limited
        &&& self.requests_error == up.requests_error
        &&& self.rate_limit_hits == up.rate_limit_hits
        &&& self.in_flight == up.in_flight
        &&& self.cooldown_ms_left == less(up.cooldown_until, now_ms)
        &&& self.enabled == up.enabled
    }
}

/// The pool of upstream keys plus a round-robin rotor.
pub struct Pool {
    pub upstreams: Vec<Upstream>,
    /// How many selections there were, modulo the width of the counter.
    pub cursor: usize,
}

/// The index that comes up `off` places behind `turn` in a pool of `n` keys. The sum wraps
/// at its width before it is reduced to an index.
pub open spec fn slot(turn: usize, off: int, n: int) -> int {
    let place = turn + off;
    if place > usize::MAX {
        (place - usize::MAX - 1) % n
    } else {
        place % n
    }
}

/// Whether the key at `i` may serve a request, if it has a token for it.
pub open spec fn eligible(
    ups: Seq<Upstream>,
    i: int,
    cost: u64,
    skip: Seq<usize>,
    now_ms: u64,
) -> bool {
    !skip.contains(i as usize) && ups[i].available(cost, now_ms)
}

/// The eligible keys among the first `upto` that come up, in the order in which they do.
pub open spec fn candidates(
    ups: Seq<Upstream>,
    turn: usize,
    cost: u64,
    skip: Seq<usize>,
    now_ms: u64,
    upto: int,
) -> Seq<int>
    decreases upto,
{
    if upto <= 0 {
        Seq::empty()
    } else {
        let before = candidates(ups, turn, cost, skip, now_ms, upto - 1);
        let i = slot(turn, upto - 1, ups.len() as int);
        if eligible(ups, i, cost, skip, now_ms) {
            before.push(i)
        } else {
            before
        }
    }
}

/// Whether `after` is what `before` becomes when the first `k` keys of `order` are asked for a
/// token of `class` in vain, and the next one, if there is one, grants it.
pub open spec fn asked(
    before: Seq<Upstream>,
    after: Seq<Upstream>,
    order: Seq<int>,
    k: int,
    class: MethodClass,
) -> bool {
    &&& 0 <= k <= order.len()
    &&& after.len() == before.len()
    &&& forall|j: int|
        0 <= j < k ==> !before[#[trigger] order[j]].limiters.must_grant(class)
    &&& forall|i: int|
        0 <= i < before.len() ==> {
            &&& (#[trigger] after[i]).same_but_buckets(&before[i])
            &&& if k < order.len() && order[k] == i {
                before[i].limiters.drawn(&after[i].limiters, class, true)
            } else if order.take(k).contains(i) {
                before[i].limiters.drawn(&after[i].limiters, class, false)
            } else {
                after[i].limiters == before[i].limiters
            }
        }
}

pub(crate) proof fn lemma_candidates_prefix(
    ups: Seq<Upstream>,
    turn: usize,
    cost: u64,
    skip: Seq<usize>,
    now_ms: u64,
    a: int,
    b: int,
)
    requires
        0 <= a <= b,
    ensures
        candidates(ups, turn, cost, skip, now_ms, a).is_prefix_of(
            candidates(ups, turn, cost, skip, now_ms, b),
        ),
    decreases b,
{
    if a < b {
        lemma_candidates_prefix(ups, turn, cost, skip, now_ms, a, b - 1);
    }
}

proof fn lemma_asked_one_more(
    before: Seq<Upstream>,
    mid: Seq<Upstream>,
    after: Seq<Upstream>,
    tried: Seq<int>,
    i: int,
    class: MethodClass,
    granted: bool,
)
    requires
        asked(before, mid, tried, tried.len() as int, class),
        0 <= i < before.len(),
        after.len() == mid.len(),
        forall|j: int| 0 <= j < mid.len() && j != i ==> after[j] == mid[j],
        after[i].same_but_buckets(&mid[i]),
        mid[i].limiters.drawn(&after[i].limiters, class, granted),
        mid[i].limiters.must_grant(class) ==> granted,
    ensures
        granted ==> asked(before, after, tried.push(i), tried.len() as int, class),
        !granted ==> asked(before, after, tried.push(i), (tried.len() + 1) as int, class),
{
    let order = tried.push(i);
    let n = tried.len() as int;
    assert(tried.take(n) == tried);
    assert(order.take(n) == tried);
    assert(order.take(n + 1) == order);
    assert(mid[i].same_but_buckets(&before[i]));
    assert(before[i].limiters.must_grant(class) == mid[i].limiters.must_grant(class));
    assert(before[i].limiters.drawn(&after[i].limiters, class, granted)) by {
        assert forall|c: MethodClass| c != class implies #[trigger] after[i].limiters.bucket(c)
            == before[i].limiters.bucket(c) by {
            assert(after[i].limiters.bucket(c) == mid[i].limiters.bucket(c));
            assert(mid[i].limiters.bucket(c) == before[i].limiters.bucket(c));
        }
    }
    let k = if granted {
        n
    } else {
        n + 1
    };
    assert forall|j: int| 0 <= j < k implies !before[#[trigger] order[j]].limiters.must_grant(
        class,
    ) by {
        if j < n {
            assert(order[j] == tried[j]);
        }
    }
    assert forall|m: int| 0 <= m < before.len() implies {
        &&& (#[trigger] after[m]).same_but_buckets(&before[m])
        &&& if k < order.len() && order[k] == m {
            before[m].limiters.drawn(&after[m].limiters, class, true)
        } else if order.take(k).contains(m) {
            before[m].limiters.drawn(&after[m].limiters, class, false)
        } else {
            after[m].limiters == before[m].limiters
        }
    } by {
        assert(mid[m].same_but_buckets(&before[m]));
        if m == i {
            assert(order[n] == i);
        } else {
            assert(after[m] == mid[m]);
            assert(order.take(k).contains(m) == tried.contains(m)) by {
                if tried.contains(m) {
                    let j = choose|j: int| 0 <= j < tried.len() && tried[j] == m;
                    assert(order.take(k)[j] == m);
                }
                if order.take(k).contains(m) {
                    let j = choose|j: int| 0 <= j < order.take(k).len() && order.take(k)[j] == m;
                    assert(tried[j] == m);
                }
            }
        }
    }
}

proof fn lemma_asked_in_longer_order(
    before: Seq<Upstream>,
    after: Seq<Upstream>,
    order: Seq<int>,
    longer: Seq<int>,
    k: int,
    class: MethodClass,
)
    requires
        asked(before, after, order, k, class),
        k < order.len(),
        order.is_prefix_of(longer),
    ensures
        asked(before, after, longer, k, class),
        longer[k] == order[k],
{
    assert(longer.take(k) == order.take(k));
    assert forall|j: int| 0 <= j < order.len() implies longer[j] == order[j] by {}
}

/// The least positive cooldown left among some keys, in milliseconds.
pub open spec fn least_cooldown(ups: Seq<Upstream>, now_ms: u64) -> Option<u64>
    decreases ups.len(),
{
    if ups.len() == 0 {
        None
    } else {
        let left = less(ups.last().cooldown_until, now_ms);
        match least_cooldown(ups.drop_last(), now_ms) {
            Some(least) if left == 0 || least <= left => Some(least),
            _ => if left > 0 {
                Some(left)
            } else {
                None
            },
        }
    }
}

/// The index in what a selection returns.
pub open spec fn index_of(choice: Option<(usize, &Upstream)>) -> Option<usize> {
    match choice {
        Some((i, _)) => Some(i),
        None => None,
    }
}

fn listed(list: &[usize], i: usize) -> (yes: bool)
    ensures
        yes == list@.contains(i),
{
    let mut j: usize = 0;
    while j < list.len()
        invariant
            j <= list@.len(),
            forall|m: int| 0 <= m < j ==> list@[m] != i,
        decreases list@.len() - j,
    {
        if list[j] == i {
            return true;
        }
        j += 1;
    }
    false
}

impl Pool {
    /// The keys that may serve a request, in the order in which they come up.
    pub open spec fn order(&self, cost: u64, skip: Seq<usize>, now_ms: u64) -> Seq<int> {
        candidates(
            self.upstreams@,
            self.cursor,
            cost,
            skip,
            now_ms,
            self.upstreams@.len() as int,
        )
    }

    /// Where the rotor stands after a selection.
    pub open spec fn next_turn(&self) -> usize {
        if self.upstreams@.len() == 0 {
            self.cursor
        } else {
            self.cursor.wrapping_add(1)
        }
    }

    /// Whether `choice` is what a selection comes to, and `after` what it makes of the keys,
    /// when the first `k` keys in order have no token and the next one, if any, has.
    pub open spec fn selected(
        &self,
        after: Seq<Upstream>,
        class: MethodClass,
        cost: u64,
        skip: Seq<usize>,
        now_ms: u64,
        k: int,
        choice: Option<usize>,
    ) -> bool {
        let order = self.order(cost, skip, now_ms);
        &&& asked(self.upstreams@, after, order, k, class)
        &&& match choice {
            Some(i) => k < order.len() && i == order[k],
            None => k == order.len(),
        }
    }

    /// Select an upstream for a request of the given `class` and `est_cost`,
    /// skipping keys already tried this request (`skip`). Round-robin order;
    /// skips disabled / over-quota / cooling-down / RPS-starved keys. Consumes
    /// one RPS token from the chosen key. Returns its index plus a handle.
    pub fn select(
        &mut self,
        class: MethodClass,
        est_cost: u64,
        skip: &[usize],
        now_ms: u64,
    ) -> (choice: Option<(usize, &Upstream)>)
        ensures
            final(self).cursor == old(self).next_turn(),
            exists|k: int| #[trigger]
                old(self).selected(
                    final(self).upstreams@,
                    class,
                    est_cost,
                    skip@,
                    now_ms,
                    k,
                    index_of(choice),
                ),
            choice matches Some((i, up)) ==> *up == final(self).upstreams@[i as int],
    {
        let n = self.upstreams.len();
        let ghost before = self.upstreams@;
        let ghost turn = self.cursor;
        if n == 0 {
            assert(self.selected(before, class, est_cost, skip@, now_ms, 0, None));
            return None;
        }
        let base = self.cursor;
        self.cursor = base.wrapping_add(1);
        let mut off: usize = 0;
        while off < n
            invariant
                off <= n,
                n == before.len(),
                n == self.upstreams@.len(),
                base == turn,
                before == old(self).upstreams@,
                turn == old(self).cursor,
                self.cursor == turn.wrapping_add(1),
                ({
                    let tried = candidates(before, turn, est_cost, skip@, now_ms, off as int);
                    asked(before, self.upstreams@, tried, tried.len() as int, class)
                }),
            decreases n - off,
        {
            let idx = base.wrapping_add(off) % n;
            assert(idx == slot(turn, off as int, n as int));
            assert(self.upstreams@[idx as int].same_but_buckets(&before[idx as int]));
            let fits = !listed(skip, idx) && self.upstreams[idx].is_enabled()
                && self.upstreams[idx].has_quota_for(est_cost) && !self.upstreams[idx].in_cooldown(
                now_ms,
            );
            assert(fits == eligible(before, idx as int, est_cost, skip@, now_ms));
            if fits {
                let ghost mid = self.upstreams@;
                let ghost tried = candidates(before, turn, est_cost, skip@, now_ms, off as int);
                let granted = self.upstreams[idx].try_acquire(class);
                proof {
                    lemma_asked_one_more(
                        before,
                        mid,
                        self.upstreams@,
                        tried,
                        idx as int,
                        class,
                        granted,
                    );
                }
                if granted {
                    proof {
                        let order = old(self).order(est_cost, skip@, now_ms);
                        lemma_candidates_prefix(
                            before,
                            turn,
                            est_cost,
                            skip@,
                            now_ms,
                            off + 1,
                            n as int,
                        );
                        lemma_asked_in_longer_order(
                            before,
                            self.upstreams@,
                            tried.push(idx as int),
                            order,
                            tried.len() as int,
                            class,
                        );
                        assert(old(self).selected(
                            self.upstreams@,
                            class,
                            est_cost,
                            skip@,
                            now_ms,
                            tried.len() as int,
                            Some(idx),
                        ));
                    }
                    return Some((idx, &self.upstreams[idx]));
                }
            }
            off += 1;
        }
        proof {
            let order = old(self).order(est_cost, skip@, now_ms);
            assert(old(self).selected(
                self.upstreams@,
                class,
                est_cost,
                skip@,
                now_ms,
                order.len() as int,
                None,
            ));
        }
        None
    }

    pub fn from_config(cfgs: &[UpstreamConfig], rps: &RpsConfig) -> (pool: Self)
        ensures
            pool.cursor == 0,
            pool.upstreams@.len() == cfgs@.len(),
            forall|i: int|
                0 <= i < cfgs@.len() ==> (#[trigger] pool.upstreams@[i]).starts_as(&cfgs@[i], rps),
    {
        let mut upstreams: Vec<Upstream> = Vec::new();
        let mut i: usize = 0;
        while i < cfgs.len()
            invariant
                i <= cfgs@.len(),
                upstreams@.len() == i,
                forall|j: int|
                    0 <= j < i ==> (#[trigger] upstreams@[j]).starts_as(&cfgs@[j], rps),
            decreases cfgs@.len() - i,
        {
            upstreams.push(Upstream::from_config(&cfgs[i], rps));
            i += 1;
        }
        Pool { upstreams, cursor: 0 }
    }

    /// True if at least one key is enabled and has monthly quota left (cooldown
    /// is transient, so it doesn't count against capacity).
    pub fn has_available_capacity(&self) -> (yes: bool)
        ensures
            yes == has_capacity(self.upstreams@),
    {
        let mut i: usize = 0;
        while i < self.upstreams.len()
            invariant
                i <= self.upstreams@.len(),
                forall|j: int|
                    0 <= j < i ==> !((#[trigger] self.upstreams@[j]).enabled
                        && self.upstreams@[j].remaining() > 0),
            decreases self.upstreams@.len() - i,
        {
            if self.upstreams[i].is_enabled() && self.upstreams[i].remaining_credits() > 0 {
                return true;
            }
            i += 1;
        }
        false
    }

    /// Seconds until the soonest key leaves cooldown (min 1), if any is cooling.
    pub fn soonest_cooldown_secs(&self, now_ms: u64) -> (secs: Option<u64>)
        ensures
            secs == soonest_secs(self.upstreams@, now_ms),
    {
        let mut least: Option<u64> = None;
        let mut i: usize = 0;
        while i < self.upstreams.len()
            invariant
                i <= self.upstreams@.len(),
                least == least_cooldown(self.upstreams@.take(i as int), now_ms),
                least matches Some(ms) ==> ms > 0,
            decreases self.upstreams@.len() - i,
        {
            assert(self.upstreams@.take(i + 1).drop_last() == self.upstreams@.take(i as int));
            let left = self.upstreams[i].cooldown_remaining_ms(now_ms);
            if left > 0 {
                least = match least {
                    Some(ms) => if ms <= left {
                        Some(ms)
                    } else {
                        Some(left)
                    },
                    None => Some(left),
                };
            }
            i += 1;
        }
        assert(self.upstreams@.take(i as int) == self.upstreams@);
        match least {
            Some(ms) => {
                let whole: u64 = ms / 1000;
                if ms % 1000 == 0 {
                    Some(whole)
                } else {
                    Some(whole + 1)
                }
            },
            None => None,
        }
    }

    /// Look up an upstream by name.
    pub fn find(&self, name: &str) -> (up: Option<&Upstream>)
        ensures
            match up {
                Some(u) => exists|i: int| #[trigger]
                    first_named(self.upstreams@, name@, i) && *u == self.upstreams@[i],
                None => forall|i: int|
                    0 <= i < self.upstreams@.len() ==> (#[trigger] self.upstreams@[i]).name@
                        != name@,
            },
    {
        let mut i: usize = 0;
        while i < self.upstreams.len()
            invariant
                i <= self.upstreams@.len(),
                forall|j: int| 0 <= j < i ==> (#[trigger] self.upstreams@[j]).name@ != name@,
            decreases self.upstreams@.len() - i,
        {
            if same_text(self.upstreams[i].name.as_str(), name) {
                assert(first_named(self.upstreams@, name@, i as int));
                return Some(&self.upstreams[i]);
            }
            i += 1;
        }
        None
    }

    pub fn stats(&self, now_ms: u64) -> (stats: Vec<UpstreamStat>)
        ensures
            stats@.len() == self.upstreams@.len(),
            forall|i: int|
                0 <= i < stats@.len() ==> (#[trigger] stats@[i]).describes(
                    &self.upstreams@[i],
                    now_ms,
                ),
    {
        let mut stats: Vec<UpstreamStat> = Vec::new();
        let mut i: usize = 0;
        while i < self.upstreams.len()
            invariant
                i <= self.upstreams@.len(),
                stats@.len() == i,
                forall|j: int|
                    0 <= j < i ==> (#[trigger] stats@[j]).describes(&self.upstreams@[j], now_ms),
            decreases self.upstreams@.len() - i,
        {
            stats.push(self.upstreams[i].stat(now_ms));
            i += 1;
        }
        stats
    }
}

/// Whether some key is enabled and has credits left this month.
pub open spec fn has_capacity(ups: Seq<Upstream>) -> bool {
    exists|i: int| 0 <= i < ups.len() && (#[trigger] ups[i]).enabled && ups[i].remaining() > 0
}

/// The seconds, rounded up, until the first of the cooling keys is available again.
pub open spec fn soonest_secs(ups: Seq<Upstream>, now_ms: u64) -> Option<u64> {
    match least_cooldown(ups, now_ms) {
        Some(ms) => Some(((ms + 999) / 1000) as u64),
        None => None,
    }
}

/// Whether the key at `i` is the first of that name.
pub open spec fn first_named(ups: Seq<Upstream>, name: Seq<char>, i: int) -> bool {
    &&& 0 <= i < ups.len()
    &&& ups[i].name@ == name
    &&& forall|j: int| 0 <= j < i ==> (#[trigger] ups[j]).name@ != name
}

/// Whether the keys of a pool of `n` come up one each in a round that begins at `turn`: the
/// rotor does not wrap within the round, or its width is a multiple of the pool's size.
pub open spec fn round_is_even(turn: usize, n: int) -> bool {
    turn + n <= usize::MAX + 1 || (usize::MAX + 1) % n == 0
}

pub(crate) proof fn lemma_slot(turn: usize, off: int, n: int)
    requires
        n > 0,
        0 <= off < n,
        round_is_even(turn, n),
    ensures
        slot(turn, off, n) == (turn + off) % n,
{
    let width = usize::MAX + 1;
    if turn + off >= width {
        lemma_fundamental_div_mod(width, n);
        lemma_mod_multiples_vanish(-(width / n), turn + off, n);
        assert(n * (-(width / n)) == -(n * (width / n))) by (nonlinear_arith);
    }
}

/// Whether the key at `i` comes up in a round that begins at `turn` in a pool of `n`.
pub open spec fn comes_up(turn: usize, i: int, n: int) -> bool {
    exists|off: int| 0 <= off < n && i == #[trigger] slot(turn, off, n)
}

/// In an even round, every key comes up.
pub proof fn every_key_comes_up(turn: usize, i: int, n: int)
    requires
        0 <= i < n,
        round_is_even(turn, n),
    ensures
        comes_up(turn, i, n),
{
    let off = (i - turn) % n;
    lemma_slot(turn, off, n);
    lemma_add_mod_noop_right(turn as int, i - turn, n);
    lemma_small_mod(i as nat, n as nat);
    assert(slot(turn, off, n) == i);
}

/// In an even round, no key comes up twice.
pub proof fn no_key_comes_up_twice(turn: usize, a: int, b: int, n: int)
    requires
        0 <= a < b < n,
        round_is_even(turn, n),
    ensures
        slot(turn, a, n) != slot(turn, b, n),
{
    lemma_slot(turn, a, n);
    lemma_slot(turn, b, n);
    if (turn + a) % n == (turn + b) % n {
        lemma_mod_equivalence(turn + b, turn + a, n);
        lemma_small_mod((b - a) as nat, n as nat);
    }
}

pub(crate) proof fn lemma_candidates(
    ups: Seq<Upstream>,
    turn: usize,
    cost: u64,
    skip: Seq<usize>,
    now_ms: u64,
    upto: int,
    i: int,
)
    requires
        ups.len() > 0,
    ensures
        candidates(ups, turn, cost, skip, now_ms, upto).contains(i) <==> (exists|off: int|
            0 <= off < upto && i == #[trigger] slot(turn, off, ups.len() as int)) && eligible(
            ups,
            i,
            cost,
            skip,
            now_ms,
        ),
    decreases upto,
{
    if upto > 0 {
        lemma_candidates(ups, turn, cost, skip, now_ms, upto - 1, i);
        let before = candidates(ups, turn, cost, skip, now_ms, upto - 1);
        let here = slot(turn, upto - 1, ups.len() as int);
        assert(before.push(here).contains(i) <==> before.contains(i) || i == here) by {
            if before.contains(i) {
                let j = choose|j: int| 0 <= j < before.len() && before[j] == i;
                assert(before.push(here)[j] == i);
            }
            assert(before.push(here)[before.len() as int] == here);
            if before.push(here).contains(i) && i != here {
                let j = choose|j: int|
                    0 <= j < before.push(here).len() && before.push(here)[j] == i;
                assert(before[j] == i);
            }
        }
        assert((exists|off: int|
            0 <= off < upto && i == #[trigger] slot(turn, off, ups.len() as int)) <==> (exists|
            off: int,
        |
            0 <= off < upto - 1 && i == #[trigger] slot(turn, off, ups.len() as int)) || i == here);
    }
}

/// A selected key is enabled, within its monthly cap, off cooldown, and not one of the keys
/// that were to be skipped.
pub proof fn a_selected_key_is_fit(
    pool: Pool,
    after: Seq<Upstream>,
    class: MethodClass,
    cost: u64,
    skip: Seq<usize>,
    now_ms: u64,
    k: int,
    i: usize,
)
    requires
        pool.selected(after, class, cost, skip, now_ms, k, Some(i)),
    ensures
        i < pool.upstreams@.len(),
        !skip.contains(i),
        pool.upstreams@[i as int].enabled,
        pool.upstreams@[i as int].affords(cost),
        !pool.upstreams@[i as int].cooling(now_ms),
{
    let ups = pool.upstreams@;
    let order = pool.order(cost, skip, now_ms);
    assert(order.len() > 0);
    assert(order.contains(i as int));
    lemma_candidates(ups, pool.cursor, cost, skip, now_ms, ups.len() as int, i as int);
}

/// A selection does not come back empty-handed while a fit key that comes up has a token for
/// sure.
pub proof fn a_ready_key_is_enough(
    pool: Pool,
    after: Seq<Upstream>,
    class: MethodClass,
    cost: u64,
    skip: Seq<usize>,
    now_ms: u64,
    k: int,
    choice: Option<usize>,
    ready: int,
)
    requires
        pool.selected(after, class, cost, skip, now_ms, k, choice),
        comes_up(pool.cursor, ready, pool.upstreams@.len() as int),
        eligible(pool.upstreams@, ready, cost, skip, now_ms),
        pool.upstreams@[ready].limiters.must_grant(class),
    ensures
        choice is Some,
{
    let ups = pool.upstreams@;
    let n = ups.len() as int;
    let order = pool.order(cost, skip, now_ms);
    lemma_candidates(ups, pool.cursor, cost, skip, now_ms, n, ready);
    let j = choose|j: int| 0 <= j < order.len() && order[j] == ready;
    if choice is None {
        assert(!ups[order[j]].limiters.must_grant(class));
    }
}

/// Whether the key whose turn it is may serve a request, and has a token for it for sure.
pub open spec fn turn_is_ready(
    pool: Pool,
    class: MethodClass,
    cost: u64,
    skip: Seq<usize>,
    now_ms: u64,
) -> bool {
    let first = slot(pool.cursor, 0, pool.upstreams@.len() as int);
    &&& pool.upstreams@.len() > 0
    &&& eligible(pool.upstreams@, first, cost, skip, now_ms)
    &&& pool.upstreams@[first].limiters.must_grant(class)
}

/// The key whose turn it is is selected, if it may serve the request and has a token for it
/// for sure.
pub proof fn the_key_whose_turn_it_is_goes_first(
    pool: Pool,
    after: Seq<Upstream>,
    class: MethodClass,
    cost: u64,
    skip: Seq<usize>,
    now_ms: u64,
    k: int,
    choice: Option<usize>,
)
    requires
        pool.selected(after, class, cost, skip, now_ms, k, choice),
        turn_is_ready(pool, class, cost, skip, now_ms),
    ensures
        choice matches Some(i) && i == slot(pool.cursor, 0, pool.upstreams@.len() as int),
{
    let ups = pool.upstreams@;
    let n = ups.len() as int;
    let first = slot(pool.cursor, 0, n);
    let order = pool.order(cost, skip, now_ms);
    let one = candidates(ups, pool.cursor, cost, skip, now_ms, 1);
    reveal_with_fuel(candidates, 2);
    assert(one == seq![first]);
    lemma_candidates_prefix(ups, pool.cursor, cost, skip, now_ms, 1, n);
    assert(order[0] == one[0]);
    if k > 0 {
        assert(!ups[order[0]].limiters.must_grant(class));
    }
}

/// Two selections in one round take different keys, as long as each finds the key whose turn
/// it is ready: the load goes round all the keys.
pub proof fn selections_in_a_round_take_different_keys(
    first: Pool,
    after_first: Seq<Upstream>,
    first_choice: Option<usize>,
    later: Pool,
    after_later: Seq<Upstream>,
    later_choice: Option<usize>,
    class: MethodClass,
    cost: u64,
    skip: Seq<usize>,
    now_ms: u64,
    k: int,
    m: int,
    gap: int,
)
    requires
        first.selected(after_first, class, cost, skip, now_ms, k, first_choice),
        later.selected(after_later, class, cost, skip, now_ms, m, later_choice),
        turn_is_ready(first, class, cost, skip, now_ms),
        turn_is_ready(later, class, cost, skip, now_ms),
        first.upstreams@.len() == later.upstreams@.len(),
        0 < gap < first.upstreams@.len(),
        round_is_even(first.cursor, first.upstreams@.len() as int),
        later.cursor == (first.cursor + gap) % (usize::MAX + 1),
    ensures
        first_choice is Some,
        later_choice is Some,
        first_choice != later_choice,
{
    let n = first.upstreams@.len() as int;
    the_key_whose_turn_it_is_goes_first(
        first,
        after_first,
        class,
        cost,
        skip,
        now_ms,
        k,
        first_choice,
    );
    the_key_whose_turn_it_is_goes_first(
        later,
        after_later,
        class,
        cost,
        skip,
        now_ms,
        m,
        later_choice,
    );
    no_key_comes_up_twice(first.cursor, 0, gap, n);
    let width = usize::MAX + 1;
    assert(first.upstreams.len() == n);
    if first.cursor + gap < width {
        lemma_small_mod((first.cursor + gap) as nat, width as nat);
    } else {
        lemma_mod_multiples_vanish(-1, first.cursor + gap, width);
        lemma_small_mod((first.cursor + gap - width) as nat, width as nat);
    }
    assert(slot(later.cursor, 0, n) == slot(first.cursor, gap, n));
}

/// Charging a key what it was found to afford leaves it within its cap, and takes the cost
/// off what remains, exactly.
pub proof fn a_charge_within_quota_keeps_the_cap(up: Upstream, cost: u64)
    requires
        up.affords(cost),
    ensures
        up.charged(cost).credits_used <= up.charged(cost).credit_cap,
        up.credits_used + cost <= u64::MAX ==> {
            &&& up.charged(cost).credits_used == up.credits_used + cost
            &&& up.charged(cost).remaining() == up.remaining() - cost
            &&& up.charged(cost).credits_used + up.charged(cost).remaining() == up.credit_cap
        },
{
}

/// Charging a key what it cannot afford is what exhausts it: nothing is left, and it affords
/// no further cost above zero.
pub proof fn an_overcharged_key_is_exhausted(up: Upstream, cost: u64, more: u64)
    requires
        !up.affords(cost),
        up.credits_used + cost <= u64::MAX,
        more > 0,
    ensures
        up.charged(cost).remaining() == 0,
        !up.charged(cost).affords(more),
{
}

/// A rate-limited key is on cooldown for its backoff, three quarters of a second at least and
/// less than thirty-eight, and success clears the backoff but not the cooldown.
pub proof fn a_tripped_key_cools_down(up: Upstream, now_ms: u64)
    requires
        now_ms + backoff(up.backoff_step as nat, now_ms as int) <= u64::MAX,
    ensures
        up.tripped(now_ms).cooling(now_ms),
        up.tripped(now_ms).cooldown_until == now_ms + backoff(
            up.backoff_step as nat,
            now_ms as int,
        ),
        now_ms + 750 <= up.tripped(now_ms).cooldown_until <= now_ms + 37_500,
        up.tripped(now_ms).remaining() == up.remaining(),
        up.tripped(now_ms).recovered().backoff_step == 0,
        forall|t: u64|
            up.tripped(now_ms).recovered().cooling(t) == #[trigger] up.tripped(now_ms).cooling(t),
        forall|t: u64| t >= now_ms + 37_500 ==> !#[trigger] up.tripped(now_ms).cooling(t),
{
    jitter_stays_within_a_quarter(up.backoff_step as nat, now_ms as int);
    backoff_grows_to_its_cap(up.backoff_step as nat);
}

/// A new day counts from zero, and then counts what is charged in it; the month and the
/// lifetime total do not notice.
pub proof fn a_new_day_counts_from_zero(up: Upstream, cost: u64)
    requires
        up.credits_total + cost <= u64::MAX,
    ensures
        up.rebased().used_today() == 0,
        up.rebased().charged(cost).used_today() == cost,
        up.rebased().credits_total == up.credits_total,
        up.rebased().credits_used == up.credits_used,
{
}

/// While no enabled key has credits left, no key is selected for a request that costs
/// anything.
pub proof fn no_capacity_means_no_selection(
    pool: Pool,
    after: Seq<Upstream>,
    class: MethodClass,
    cost: u64,
    skip: Seq<usize>,
    now_ms: u64,
    k: int,
    choice: Option<usize>,
)
    requires
        pool.selected(after, class, cost, skip, now_ms, k, choice),
        !has_capacity(pool.upstreams@),
        cost > 0,
        forall|i: int|
            0 <= i < pool.upstreams@.len() && (#[trigger] pool.upstreams@[i]).enabled
                ==> pool.upstreams@[i].credit_cap < u64::MAX || pool.upstreams@[i].credits_used
                < u64::MAX,
    ensures
        choice is None,
{
    if let Some(i) = choice {
        a_selected_key_is_fit(pool, after, class, cost, skip, now_ms, k, i);
        assert(pool.upstreams@[i as int].remaining() > 0);
    }
}

proof fn lemma_least_cooldown(ups: Seq<Upstream>, now_ms: u64)
    ensures
        match least_cooldown(ups, now_ms) {
            Some(ms) => {
                &&& ms > 0
                &&& exists|i: int|
                    0 <= i < ups.len() && (#[trigger] ups[i]).cooldown_until == now_ms + ms
                &&& forall|j: int|
                    0 <= j < ups.len() && (#[trigger] ups[j]).cooling(now_ms)
                        ==> ups[j].cooldown_until >= now_ms + ms
            },
            None => forall|j: int|
                0 <= j < ups.len() ==> !(#[trigger] ups[j]).cooling(now_ms),
        },
    decreases ups.len(),
{
    if ups.len() > 0 {
        let rest = ups.drop_last();
        lemma_least_cooldown(rest, now_ms);
        assert forall|j: int| 0 <= j < rest.len() implies rest[j] == ups[j] by {}
        let left = less(ups.last().cooldown_until, now_ms);
        match least_cooldown(rest, now_ms) {
            Some(least) => {
                let i = choose|i: int|
                    0 <= i < rest.len() && (#[trigger] rest[i]).cooldown_until == now_ms + least;
                assert(ups[i].cooldown_until == now_ms + least);
                assert forall|j: int|
                    0 <= j < ups.len() - 1 && (#[trigger] ups[j]).cooling(now_ms) implies
                    ups[j].cooldown_until >= now_ms + least by {
                    assert(rest[j].cooling(now_ms));
                }
            },
            None => {
                assert forall|j: int| 0 <= j < ups.len() - 1 implies !(#[trigger] ups[j]).cooling(
                    now_ms,
                ) by {
                    assert(!rest[j].cooling(now_ms));
                }
            },
        }
        assert(ups[ups.len() - 1] == ups.last());
    }
}

/// A time to come back is given if and only if some key is cooling. It is a second at least,
/// a key has left its cooldown by then, and a second earlier none of the cooling keys has.
pub proof fn retry_after_is_when_a_key_leaves_cooldown(ups: Seq<Upstream>, now_ms: u64)
    ensures
        soonest_secs(ups, now_ms) is Some <==> (exists|i: int|
            0 <= i < ups.len() && (#[trigger] ups[i]).cooling(now_ms)),
        soonest_secs(ups, now_ms) matches Some(secs) ==> {
            &&& secs >= 1
            &&& exists|i: int|
                0 <= i < ups.len() && (#[trigger] ups[i]).cooling(now_ms) && ups[i].cooldown_until
                    <= now_ms + secs * 1000
            &&& forall|i: int|
                0 <= i < ups.len() && (#[trigger] ups[i]).cooling(now_ms) ==> ups[i].cooldown_until
                    > now_ms + (secs - 1) * 1000
        },
{
    lemma_least_cooldown(ups, now_ms);
    if let Some(ms) = least_cooldown(ups, now_ms) {
        let i = choose|i: int|
            0 <= i < ups.len() && (#[trigger] ups[i]).cooldown_until == now_ms + ms;
        assert(ups[i].cooling(now_ms));
    }
}

/// The tokens of `class` that the buckets of some keys have granted together.
pub open spec fn total_grants(ups: Seq<Upstream>, class: MethodClass) -> nat
    decreases ups.len(),
{
    if ups.len() == 0 {
        0
    } else {
        total_grants(ups.drop_last(), class) + (match ups.last().limiters.bucket(class) {
            Some(bucket) => bucket_grants(bucket),
            None => 0,
        })
    }
}

/// The tokens of `class` per second that the buckets of some keys are made for together.
pub open spec fn total_rate(ups: Seq<Upstream>, class: MethodClass) -> nat
    decreases ups.len(),
{
    if ups.len() == 0 {
        0
    } else {
        total_rate(ups.drop_last(), class) + (match ups.last().limiters.bucket(class) {
            Some(bucket) => bucket_rate(bucket),
            None => 0,
        })
    }
}

proof fn lemma_some_bucket_is_left(ups: Seq<Upstream>, class: MethodClass) -> (i: int)
    requires
        total_grants(ups, class) < total_rate(ups, class),
    ensures
        0 <= i < ups.len(),
        ups[i].limiters.must_grant(class),
    decreases ups.len(),
{
    let last = ups.len() - 1;
    if ups[last].limiters.must_grant(class) {
        last
    } else {
        let i = lemma_some_bucket_is_left(ups.drop_last(), class);
        assert(ups.drop_last()[i] == ups[i]);
        i
    }
}

/// The pool multiplies the request rate by the number of keys: as long as its keys are all fit
/// and have granted fewer tokens than their rates come to together, a selection succeeds.
pub proof fn rates_add_up(
    pool: Pool,
    after: Seq<Upstream>,
    class: MethodClass,
    cost: u64,
    now_ms: u64,
    k: int,
    choice: Option<usize>,
)
    requires
        pool.selected(after, class, cost, Seq::empty(), now_ms, k, choice),
        round_is_even(pool.cursor, pool.upstreams@.len() as int),
        forall|i: int|
            0 <= i < pool.upstreams@.len() ==> (#[trigger] pool.upstreams@[i]).available(
                cost,
                now_ms,
            ),
        total_grants(pool.upstreams@, class) < total_rate(pool.upstreams@, class),
    ensures
        choice is Some,
{
    let ready = lemma_some_bucket_is_left(pool.upstreams@, class);
    every_key_comes_up(pool.cursor, ready, pool.upstreams@.len() as int);
    a_ready_key_is_enough(pool, after, class, cost, Seq::empty(), now_ms, k, choice, ready);
}

/// Nothing but a charge moves a key's lifetime total, and nothing but a charge or a new month
/// moves what it has used this month.
pub proof fn only_a_charge_moves_the_totals(up: Upstream, now_ms: u64, month: u32, used: u64)
    ensures
        up.in_month(month, used).credits_total == up.credits_total,
        forall|after: Upstream|
            after == up.tripped(now_ms) || after == up.recovered() || after == up.rebased()
                || after == up.counted_ok() || after == up.counted_rate_limited() || after
                == up.counted_error() || after == up.busier() || after == up.idler() ==> (
            #[trigger] after.remaining()) == up.remaining() && after.credits_total
                == up.credits_total && after.credits_used == up.credits_used,
{
}

/// The credits that some keys have left together.
pub open spec fn total_remaining(ups: Seq<Upstream>) -> nat
    decreases ups.len(),
{
    if ups.len() == 0 {
        0
    } else {
        total_remaining(ups.drop_last()) + ups.last().remaining() as nat
    }
}

/// What the keys have left together changes by what one of them does.
pub proof fn one_key_changes_the_sum(ups: Seq<Upstream>, i: int, up: Upstream)
    requires
        0 <= i < ups.len(),
    ensures
        total_remaining(ups.update(i, up)) == total_remaining(ups) - ups[i].remaining()
            + up.remaining(),
    decreases ups.len(),
{
    let after = ups.update(i, up);
    if i == ups.len() - 1 {
        assert(after.drop_last() =~= ups.drop_last());
    } else {
        assert(after.drop_last() =~= ups.drop_last().update(i, up));
        one_key_changes_the_sum(ups.drop_last(), i, up);
    }
}

/// The pool multiplies the quota by the number of keys: charging one key what it affords takes
/// exactly that off what the keys have left together.
pub proof fn quotas_add_up(ups: Seq<Upstream>, i: int, cost: u64)
    requires
        0 <= i < ups.len(),
        ups[i].affords(cost),
        ups[i].credits_used + cost <= u64::MAX,
    ensures
        total_remaining(ups.update(i, ups[i].charged(cost))) == total_remaining(ups) - cost,
{
    one_key_changes_the_sum(ups, i, ups[i].charged(cost));
}

} // verus!
