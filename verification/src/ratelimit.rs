//! Rate-limit primitives: proactive per-class token buckets and the reactive
//! cooldown/backoff math.
//!
//! Proactive: each upstream key holds one [`Limiter`] per [`MethodClass`], sized
//! from the configured free-tier RPS. A request consumes a token for its class;
//! if the bucket is empty the selector skips to another key.
//!
//! Reactive: when an upstream returns 429 / JSON-RPC -32005, the key is put on a
//! cooldown that grows exponentially (1s → 32s, capped 30s) with ±25% jitter.

use std::num::NonZeroU32;
use std::time::{SystemTime, UNIX_EPOCH};

use vstd::prelude::*;

use crate::config::RpsConfig;
use crate::credits::MethodClass;

verus! {

/// A direct (non-keyed) in-memory token bucket of the `governor` crate, on the clock of
/// `std::time::Instant`.
#[verifier::external_body]
pub struct Limiter {
    bucket: governor::RateLimiter<
        governor::state::NotKeyed,
        governor::state::InMemoryState,
        governor::clock::MonotonicClock,
        governor::middleware::NoOpMiddleware<std::time::Instant>,
    >,
}

/// The tokens per second that a bucket was made for.
pub uninterp spec fn bucket_rate(limiter: Limiter) -> nat;

/// The tokens that a bucket has granted since it was made.
pub uninterp spec fn bucket_grants(limiter: Limiter) -> nat;

impl Limiter {
    /// `governor::RateLimiter::direct_with_clock` with `Quota::per_second` and
    /// `MonotonicClock`: a full bucket, made for that rate, which has granted nothing yet.
    #[verifier::external_body]
    fn per_second(rps: u32) -> (limiter: Limiter)
        requires
            rps > 0,
        ensures
            bucket_rate(limiter) == rps,
            bucket_grants(limiter) == 0,
    {
        let rate = NonZeroU32::new(rps).unwrap();
        let quota = governor::Quota::per_second(rate);
        let clock = governor::clock::MonotonicClock;
        Limiter { bucket: governor::RateLimiter::direct_with_clock(quota, &clock) }
    }

    /// `governor::RateLimiter::check`: asks for one token. The rate stays what it was, and a
    /// granted token is counted. The burst size of the quota is its rate, so a bucket that has
    /// granted fewer tokens than that grants one more at any time: its clock reads
    /// `Instant::now`, which never goes back. Beyond that the clock decides, and nothing is
    /// claimed.
    #[verifier::external_body]
    fn check(&mut self) -> (granted: bool)
        ensures
            bucket_rate(*final(self)) == bucket_rate(*old(self)),
            bucket_grants(*final(self)) == bucket_grants(*old(self)) + (if granted {
                1nat
            } else {
                0nat
            }),
            bucket_grants(*old(self)) < bucket_rate(*old(self)) ==> granted,
    {
        self.bucket.check().is_ok()
    }
}

/// One token bucket per limited class.
pub struct Limiters {
    standard_rpc: Option<Limiter>,
    send_transaction: Option<Limiter>,
    get_program_accounts: Option<Limiter>,
    das: Option<Limiter>,
    zk: Option<Limiter>,
}

/// The configured limit of a class.
pub open spec fn configured_rps(rps: &RpsConfig, class: MethodClass) -> u32 {
    match class {
        MethodClass::StandardRpc => rps.standard_rpc,
        MethodClass::SendTransaction => rps.send_transaction,
        MethodClass::GetProgramAccounts => rps.get_program_accounts,
        MethodClass::Das => rps.das,
        MethodClass::Zk => rps.zk,
    }
}

impl Limiters {
    /// The bucket of a class, if the class is limited.
    pub closed spec fn bucket(&self, class: MethodClass) -> Option<Limiter> {
        match class {
            MethodClass::StandardRpc => self.standard_rpc,
            MethodClass::SendTransaction => self.send_transaction,
            MethodClass::GetProgramAccounts => self.get_program_accounts,
            MethodClass::Das => self.das,
            MethodClass::Zk => self.zk,
        }
    }

    /// Whether a token for `class` is there whatever the time: the class is unlimited, or its
    /// bucket has granted fewer tokens than its rate.
    pub open spec fn must_grant(&self, class: MethodClass) -> bool {
        match self.bucket(class) {
            Some(bucket) => bucket_grants(bucket) < bucket_rate(bucket),
            None => true,
        }
    }

    /// What asking for a token of `class` makes of these buckets: only the bucket of that
    /// class changes, and it counts the token if one was granted.
    pub open spec fn drawn(&self, after: &Limiters, class: MethodClass, granted: bool) -> bool {
        &&& forall|c: MethodClass| c != class ==> #[trigger] after.bucket(c) == self.bucket(c)
        &&& match (self.bucket(class), after.bucket(class)) {
            (Some(b), Some(a)) => {
                &&& bucket_rate(a) == bucket_rate(b)
                &&& bucket_grants(a) == bucket_grants(b) + (if granted {
                    1nat
                } else {
                    0nat
                })
            },
            (None, None) => granted,
            _ => false,
        }
    }

    /// Whether these are the untouched buckets of a configuration: one for each class with a
    /// limit, made for that limit, and none for a class whose limit is zero.
    pub open spec fn fresh(&self, rps: &RpsConfig) -> bool {
        forall|class: MethodClass|
            match #[trigger] self.bucket(class) {
                Some(bucket) => configured_rps(rps, class) > 0 && bucket_rate(bucket)
                    == configured_rps(rps, class) && bucket_grants(bucket) == 0,
                None => configured_rps(rps, class) == 0,
            }
    }

    /// Whether `class` is limited.
    pub fn contains_key(&self, class: &MethodClass) -> (limited: bool)
        ensures
            limited == self.bucket(*class) is Some,
    {
        match class {
            MethodClass::StandardRpc => self.standard_rpc.is_some(),
            MethodClass::SendTransaction => self.send_transaction.is_some(),
            MethodClass::GetProgramAccounts => self.get_program_accounts.is_some(),
            MethodClass::Das => self.das.is_some(),
            MethodClass::Zk => self.zk.is_some(),
        }
    }

    /// Tries to consume one token for `class`. Unlimited classes always succeed.
    pub fn try_acquire(&mut self, class: MethodClass) -> (granted: bool)
        ensures
            old(self).drawn(final(self), class, granted),
            old(self).must_grant(class) ==> granted,
    {
        match class {
            MethodClass::StandardRpc => draw(&mut self.standard_rpc),
            MethodClass::SendTransaction => draw(&mut self.send_transaction),
            MethodClass::GetProgramAccounts => draw(&mut self.get_program_accounts),
            MethodClass::Das => draw(&mut self.das),
            MethodClass::Zk => draw(&mut self.zk),
        }
    }
}

fn draw(slot: &mut Option<Limiter>) -> (granted: bool)
    ensures
        match (*old(slot), *final(slot)) {
            (Some(b), Some(a)) => {
                &&& bucket_rate(a) == bucket_rate(b)
                &&& bucket_grants(a) == bucket_grants(b) + (if granted {
                    1nat
                } else {
                    0nat
                })
                &&& bucket_grants(b) < bucket_rate(b) ==> granted
            },
            (None, None) => granted,
            _ => false,
        },
{
    match slot {
        Some(limiter) => limiter.check(),
        None => true,
    }
}

/// Build one limiter per class from the configured RPS. A class with rps = 0 is
/// left unlimited (no entry).
pub fn build_limiters(rps: &RpsConfig) -> (limiters: Limiters)
    ensures
        limiters.fresh(rps),
{
    Limiters {
        standard_rpc: limiter_for(rps.standard_rpc),
        send_transaction: limiter_for(rps.send_transaction),
        get_program_accounts: limiter_for(rps.get_program_accounts),
        das: limiter_for(rps.das),
        zk: limiter_for(rps.zk),
    }
}

fn limiter_for(rps: u32) -> (slot: Option<Limiter>)
    ensures
        match slot {
            Some(bucket) => rps > 0 && bucket_rate(bucket) == rps && bucket_grants(bucket) == 0,
            None => rps == 0,
        },
{
    if rps > 0 {
        Some(Limiter::per_second(rps))
    } else {
        None
    }
}

/// `std::time::SystemTime::now`, as milliseconds since the Unix epoch, zero before it. The
/// clock decides, and nothing is claimed.
#[verifier::external_body]
fn unix_millis() -> (millis: u128) {
    SystemTime::now().duration_since(UNIX_EPOCH).unwrap_or_default().as_millis()
}

/// The low 64 bits of a count of milliseconds.
pub fn millis_to_u64(millis: u128) -> (ms: u64)
    ensures
        ms == millis % 0x1_0000_0000_0000_0000,
{
    assert(millis as u64 == millis % 0x1_0000_0000_0000_0000u128) by (bit_vector);
    millis as u64
}

/// Milliseconds since the Unix epoch.
pub fn now_ms() -> (ms: u64) {
    millis_to_u64(unix_millis())
}

/// The cooldown of a backoff step before jitter, in milliseconds: one second, doubled at
/// each step, up to thirty seconds.
pub open spec fn backoff_base(step: nat) -> int
    decreases step,
{
    if step == 0 {
        1000
    } else if 2 * backoff_base((step - 1) as nat) > 30_000 {
        30_000
    } else {
        2 * backoff_base((step - 1) as nat)
    }
}

/// The cooldown of a backoff step, in milliseconds: its base, less a quarter, plus what the
/// clock leaves over when divided by half the base.
pub open spec fn backoff(step: nat, now_ms: int) -> int {
    let span = backoff_base(step) / 2;
    backoff_base(step) + now_ms % span - span / 2
}

pub(crate) proof fn lemma_backoff_base(step: nat)
    ensures
        backoff_base(0) == 1000,
        backoff_base(1) == 2000,
        backoff_base(2) == 4000,
        backoff_base(3) == 8000,
        backoff_base(4) == 16000,
        step >= 5 ==> backoff_base(step) == 30_000,
    decreases step,
{
    reveal_with_fuel(backoff_base, 6);
    if step > 5 {
        lemma_backoff_base((step - 1) as nat);
    }
}

/// Cooldown duration (ms) for a given backoff step: `1000 * 2^step`, capped at
/// 30s, with ±25% jitter derived cheaply from `now_ms` (no RNG dependency).
pub fn backoff_with_jitter(step: u32, now_ms: u64) -> (ms: u64)
    ensures
        ms == backoff(step as nat, now_ms as int),
        750 <= ms < 37_500,
{
    let shift: u32 = if step < 5 {
        step
    } else {
        5
    };
    let doubled: u64 = 1000u64 << shift;
    let base: u64 = if doubled < 30_000 {
        doubled
    } else {
        30_000
    };
    proof {
        lemma_backoff_base(step as nat);
        assert(1000u64 << 0u32 == 1000) by (bit_vector);
        assert(1000u64 << 1u32 == 2000) by (bit_vector);
        assert(1000u64 << 2u32 == 4000) by (bit_vector);
        assert(1000u64 << 3u32 == 8000) by (bit_vector);
        assert(1000u64 << 4u32 == 16000) by (bit_vector);
        assert(1000u64 << 5u32 == 32000) by (bit_vector);
        assert(base == backoff_base(step as nat));
    }
    let span: u64 = base / 2;  // ±25% → total width base/2
    base + now_ms % span - span / 2
}

/// The base of the backoff never shrinks from one step to the next, and stays between one
/// second and thirty seconds.
pub proof fn backoff_grows_to_its_cap(step: nat)
    ensures
        1000 <= backoff_base(step) <= 30_000,
        backoff_base(step) <= backoff_base(step + 1),
        step >= 5 ==> backoff_base(step) == 30_000,
{
    lemma_backoff_base(step);
    lemma_backoff_base(step + 1);
}

/// A cooldown stays within a quarter of its base, either way.
pub proof fn jitter_stays_within_a_quarter(step: nat, now_ms: int)
    ensures
        4 * backoff(step, now_ms) >= 3 * backoff_base(step),
        4 * backoff(step, now_ms) <= 5 * backoff_base(step),
{
    lemma_backoff_base(step);
}

} // verus!
