//! Credit-usage persistence: a snapshot that survives restarts.
//!
//! State is tiny (a few rows), single-writer, and authoritative in RAM. A snapshot
//! is flushed periodically and on shutdown. On boot usage is restored only if the
//! snapshot is from the current UTC month (otherwise the month rolled over in the
//! meantime, so everyone starts fresh). Lifetime counters, tallies and history belong
//! to no month: they are kept in a [`LifetimeSnapshot`] and always restored.

use vstd::prelude::*;

use crate::config::{PersistenceConfig, SnapshotErrorPolicy};
use crate::name_map::{lemma_lookup_found, lookup, NameMap};
use crate::stats::{
    copied_days, copied_months, days, monthly_usage, months, DailyRecord, MonthlyRecord, Stats,
};
use crate::text::same_text;
use crate::upstream::{current_yyyymm, first_named, is_month_code, Lifetime, Pool, Upstream};

verus! {

/// The usage of every key, as of some time.
#[derive(Debug)]
pub struct Snapshot {
    pub epoch_yyyymm: u32,
    pub saved_at_ms: u64,
    pub upstreams: Vec<UpstreamSnap>,
}

/// The usage of one key.
#[derive(Debug)]
pub struct UpstreamSnap {
    pub name: String,
    pub credits_used: u64,
}

/// A snapshot exists, but cannot be read.
#[derive(Debug)]
pub struct Unreadable;

impl View for UpstreamSnap {
    type V = (Seq<char>, u64);

    open spec fn view(&self) -> (Seq<char>, u64) {
        (self.name@, self.credits_used)
    }
}

/// The rows of a snapshot, by their views.
pub open spec fn rows(snaps: Seq<UpstreamSnap>) -> Seq<(Seq<char>, u64)> {
    snaps.map_values(|s: UpstreamSnap| s@)
}

impl Snapshot {
    /// Capture current usage from the pool.
    pub fn capture(pool: &Pool, cur_yyyymm: u32, now_ms: u64) -> (snap: Self)
        ensures
            snap.epoch_yyyymm == cur_yyyymm,
            snap.saved_at_ms == now_ms,
            rows(snap.upstreams@) == monthly_usage(pool.upstreams@),
    {
        let mut upstreams: Vec<UpstreamSnap> = Vec::new();
        let mut i: usize = 0;
        while i < pool.upstreams.len()
            invariant
                i <= pool.upstreams@.len(),
                upstreams@.len() == i,
                forall|j: int|
                    0 <= j < i ==> (#[trigger] upstreams@[j])@ == (
                        pool.upstreams@[j].name@,
                        pool.upstreams@[j].credits_used,
                    ),
            decreases pool.upstreams@.len() - i,
        {
            let up = &pool.upstreams[i];
            upstreams.push(
                UpstreamSnap { name: up.name.clone(), credits_used: up.credits_used() },
            );
            i += 1;
        }
        assert(rows(upstreams@) =~= monthly_usage(pool.upstreams@));
        Snapshot { epoch_yyyymm: cur_yyyymm, saved_at_ms: now_ms, upstreams }
    }

    /// The usage that this snapshot holds under `name`, in the first row of that name.
    pub open spec fn used_by(&self, name: Seq<char>) -> u64 {
        match lookup(rows(self.upstreams@), name) {
            Some(used) => used,
            None => 0,
        }
    }

    fn usage_of(&self, name: &str) -> (used: u64)
        ensures
            used == self.used_by(name@),
    {
        let ghost list = rows(self.upstreams@);
        let mut i: usize = 0;
        assert(list.skip(0) == list);
        while i < self.upstreams.len()
            invariant
                i <= list.len(),
                list == rows(self.upstreams@),
                lookup(list.skip(i as int), name@) == lookup(list, name@),
            decreases list.len() - i,
        {
            assert(list.skip(i as int).skip(1) == list.skip(i + 1));
            assert(list.skip(i as int)[0] == self.upstreams@[i as int]@);
            if same_text(self.upstreams[i].name.as_str(), name) {
                return self.upstreams[i].credits_used;
            }
            i += 1;
        }
        0
    }
}

/// The usage that a key starts with in month `cur`:
///
/// - snapshot present & same month → what it holds under the key's name
/// - snapshot present but from another month → zero (the month already rolled over)
/// - snapshot absent → zero
/// - snapshot unreadable → zero, or the key's cap, as `policy` says
pub open spec fn starting_usage(
    up: Upstream,
    loaded: Result<Option<Snapshot>, Unreadable>,
    policy: SnapshotErrorPolicy,
    cur: u32,
) -> u64 {
    match loaded {
        Ok(Some(snap)) => if snap.epoch_yyyymm == cur {
            snap.used_by(up.name@)
        } else {
            0
        },
        Ok(None) => 0,
        Err(_) => match policy {
            SnapshotErrorPolicy::Cap => up.credit_cap,
            SnapshotErrorPolicy::Zero => 0,
        },
    }
}

/// The keys at the beginning of a run in month `cur`.
pub open spec fn started(
    ups: Seq<Upstream>,
    loaded: Result<Option<Snapshot>, Unreadable>,
    policy: SnapshotErrorPolicy,
    cur: u32,
) -> Seq<Upstream> {
    ups.map_values(|u: Upstream| u.in_month(cur, starting_usage(u, loaded, policy, cur)))
}

/// Initialize every key's month epoch to `cur` and restore prior usage where applicable.
pub fn restore_month(
    pool: &mut Pool,
    policy: SnapshotErrorPolicy,
    loaded: &Result<Option<Snapshot>, Unreadable>,
    cur: u32,
)
    ensures
        final(pool).upstreams@ == started(old(pool).upstreams@, *loaded, policy, cur),
        *final(pool) == (Pool { upstreams: final(pool).upstreams, ..*old(pool) }),
{
    let n = pool.upstreams.len();
    let ghost before = pool.upstreams@;
    let mut i: usize = 0;
    while i < n
        invariant
            i <= n,
            n == pool.upstreams@.len(),
            n == before.len(),
            *pool == (Pool { upstreams: pool.upstreams, ..*old(pool) }),
            forall|j: int|
                0 <= j < i ==> #[trigger] pool.upstreams@[j] == before[j].in_month(
                    cur,
                    starting_usage(before[j], *loaded, policy, cur),
                ),
            forall|j: int| i <= j < n ==> #[trigger] pool.upstreams@[j] == before[j],
        decreases n - i,
    {
        let used: u64 = match loaded {
            Ok(Some(snap)) => if snap.epoch_yyyymm == cur {
                snap.usage_of(pool.upstreams[i].name.as_str())
            } else {
                0
            },
            Ok(None) => 0,
            Err(_) => match policy {
                SnapshotErrorPolicy::Cap => pool.upstreams[i].credit_cap,
                SnapshotErrorPolicy::Zero => 0,
            },
        };
        pool.upstreams[i].restore_monthly(cur, used);
        i += 1;
    }
    assert(pool.upstreams@ =~= started(before, *loaded, policy, cur));
}

/// Initialize every key's month epoch to the current UTC month and restore prior usage
/// where applicable.
pub fn restore_into(
    pool: &mut Pool,
    cfg: &PersistenceConfig,
    loaded: &Result<Option<Snapshot>, Unreadable>,
)
    ensures
        exists|cur: u32| #[trigger]
            is_month_code(cur) && final(pool).upstreams@ == started(
                old(pool).upstreams@,
                *loaded,
                cfg.on_snapshot_error,
                cur,
            ),
        *final(pool) == (Pool { upstreams: final(pool).upstreams, ..*old(pool) }),
{
    let cur = current_yyyymm();
    restore_month(pool, cfg.on_snapshot_error, loaded, cur)
}

/// A restart within the month loses nothing: what was captured of a key is what a key of that
/// name starts with, whatever else changed in the pool. (Names are taken to tell keys apart:
/// of several keys of one name, it is the first whose usage comes back.)
pub proof fn usage_survives_a_restart(
    before: Seq<Upstream>,
    i: int,
    snap: Snapshot,
    up: Upstream,
    policy: SnapshotErrorPolicy,
    cur: u32,
)
    requires
        rows(snap.upstreams@) == monthly_usage(before),
        snap.epoch_yyyymm == cur,
        first_named(before, up.name@, i),
    ensures
        starting_usage(up, Ok(Some(snap)), policy, cur) == before[i].credits_used,
{
    lemma_lookup_found(monthly_usage(before), up.name@, i);
}

/// A snapshot of another month, or none, lets every key start with its whole cap.
pub proof fn another_month_starts_fresh(
    ups: Seq<Upstream>,
    loaded: Result<Option<Snapshot>, Unreadable>,
    policy: SnapshotErrorPolicy,
    cur: u32,
    i: int,
)
    requires
        loaded matches Ok(snap) && (snap matches Some(s) ==> s.epoch_yyyymm != cur),
        0 <= i < ups.len(),
    ensures
        started(ups, loaded, policy, cur)[i].credits_used == 0,
        started(ups, loaded, policy, cur)[i].remaining() == ups[i].credit_cap,
        started(ups, loaded, policy, cur)[i].epoch_yyyymm == cur,
{
}

/// An unreadable snapshot opens every key, or closes every key, as the policy says.
pub proof fn an_unreadable_snapshot_follows_the_policy(
    ups: Seq<Upstream>,
    policy: SnapshotErrorPolicy,
    cur: u32,
    i: int,
)
    requires
        0 <= i < ups.len(),
    ensures
        started(ups, Err(Unreadable), policy, cur)[i].remaining() == (match policy {
            SnapshotErrorPolicy::Zero => ups[i].credit_cap,
            SnapshotErrorPolicy::Cap => 0,
        }),
        started(ups, Err(Unreadable), policy, cur)[i].epoch_yyyymm == cur,
{
}

/// What outlives a month: the lifetime counters of every key, the tallies and the history.
#[derive(Debug)]
pub struct LifetimeSnapshot {
    /// The day whose baselines the rows hold, encoded `YYYYMMDD`.
    pub current_day: u32,
    pub all_exhausted: u64,
    pub methods: NameMap<u64>,
    pub history: Vec<MonthlyRecord>,
    pub daily_history: Vec<DailyRecord>,
    pub upstreams: Vec<LifetimeRow>,
}

/// The lifetime counters of one key, with the baseline of the day.
#[derive(Debug)]
pub struct LifetimeRow {
    pub name: String,
    pub credits_total: u64,
    pub requests_ok: u64,
    pub requests_rate_limited: u64,
    pub requests_error: u64,
    pub rate_limit_hits: u64,
    pub day_start_total: u64,
}

impl View for LifetimeRow {
    type V = (Seq<char>, Lifetime);

    open spec fn view(&self) -> (Seq<char>, Lifetime) {
        (
            self.name@,
            Lifetime {
                credits_total: self.credits_total,
                requests_ok: self.requests_ok,
                requests_rate_limited: self.requests_rate_limited,
                requests_error: self.requests_error,
                rate_limit_hits: self.rate_limit_hits,
                day_start_total: self.day_start_total,
            },
        )
    }
}

/// The rows of a lifetime snapshot, by their views.
pub open spec fn lifetime_rows(rows: Seq<LifetimeRow>) -> Seq<(Seq<char>, Lifetime)> {
    rows.map_values(|r: LifetimeRow| r@)
}

/// What each key counts over its lifetime, by name.
pub open spec fn lifetimes(ups: Seq<Upstream>) -> Seq<(Seq<char>, Lifetime)> {
    ups.map_values(|u: Upstream| (u.name@, u.lifetime()))
}

impl LifetimeSnapshot {
    /// Whether this holds what those statistics do, but for the month, which a start of the
    /// gateway enters anew.
    pub open spec fn holds(&self, stats: Stats) -> bool {
        &&& self.current_day == stats.current_day
        &&& self.all_exhausted == stats.all_exhausted
        &&& self.methods.list() == stats.methods.list()
        &&& months(self.history@) == months(stats.history@)
        &&& days(self.daily_history@) == days(stats.daily_history@)
    }

    fn row_of(&self, name: &str) -> (row: Option<&LifetimeRow>)
        ensures
            match row {
                Some(r) => lookup(lifetime_rows(self.upstreams@), name@) == Some(r@.1),
                None => lookup(lifetime_rows(self.upstreams@), name@) is None,
            },
    {
        let ghost list = lifetime_rows(self.upstreams@);
        let mut i: usize = 0;
        assert(list.skip(0) == list);
        while i < self.upstreams.len()
            invariant
                i <= list.len(),
                list == lifetime_rows(self.upstreams@),
                lookup(list.skip(i as int), name@) == lookup(list, name@),
            decreases list.len() - i,
        {
            assert(list.skip(i as int).skip(1) == list.skip(i + 1));
            assert(list.skip(i as int)[0] == self.upstreams@[i as int]@);
            if same_text(self.upstreams[i].name.as_str(), name) {
                return Some(&self.upstreams[i]);
            }
            i += 1;
        }
        None
    }
}

/// Capture what outlives the month.
pub fn capture_lifetime(pool: &Pool, stats: &Stats) -> (snap: LifetimeSnapshot)
    ensures
        lifetime_rows(snap.upstreams@) == lifetimes(pool.upstreams@),
        snap.holds(*stats),
{
    let mut upstreams: Vec<LifetimeRow> = Vec::new();
    let mut i: usize = 0;
    while i < pool.upstreams.len()
        invariant
            i <= pool.upstreams@.len(),
            upstreams@.len() == i,
            forall|j: int|
                0 <= j < i ==> (#[trigger] upstreams@[j])@ == (
                    pool.upstreams@[j].name@,
                    pool.upstreams@[j].lifetime(),
                ),
        decreases pool.upstreams@.len() - i,
    {
        let up = &pool.upstreams[i];
        upstreams.push(
            LifetimeRow {
                name: up.name.clone(),
                credits_total: up.credits_total(),
                requests_ok: up.requests_ok(),
                requests_rate_limited: up.requests_rate_limited(),
                requests_error: up.requests_error(),
                rate_limit_hits: up.rate_limit_hits(),
                day_start_total: up.day_start_total(),
            },
        );
        i += 1;
    }
    assert(lifetime_rows(upstreams@) =~= lifetimes(pool.upstreams@));
    LifetimeSnapshot {
        current_day: stats.current_day,
        all_exhausted: stats.all_exhausted,
        methods: stats.methods.clone(),
        history: copied_months(&stats.history),
        daily_history: copied_days(&stats.daily_history),
        upstreams,
    }
}

/// A key with the lifetime counters that a snapshot holds in the first row of its name, if
/// there is one.
pub open spec fn revived(up: Upstream, snap: LifetimeSnapshot) -> Upstream {
    match lookup(lifetime_rows(snap.upstreams@), up.name@) {
        Some(life) => up.with_lifetime(life),
        None => up,
    }
}

/// Restore what outlives the month: each key's lifetime counters by its name, the tallies and
/// the history. What belongs to the month, and what is transient, stays as it is.
pub fn restore_lifetime_into(pool: &mut Pool, stats: &mut Stats, snap: &LifetimeSnapshot)
    ensures
        final(pool).upstreams@ == old(pool).upstreams@.map_values(
            |u: Upstream| revived(u, *snap),
        ),
        *final(pool) == (Pool { upstreams: final(pool).upstreams, ..*old(pool) }),
        snap.holds(*final(stats)),
        final(stats).current_month == old(stats).current_month,
        snap.methods.well_formed() ==> final(stats).well_formed(),
{
    let n = pool.upstreams.len();
    let ghost before = pool.upstreams@;
    let mut i: usize = 0;
    while i < n
        invariant
            i <= n,
            n == pool.upstreams@.len(),
            n == before.len(),
            *pool == (Pool { upstreams: pool.upstreams, ..*old(pool) }),
            forall|j: int| 0 <= j < i ==> #[trigger] pool.upstreams@[j] == revived(before[j], *snap),
            forall|j: int| i <= j < n ==> #[trigger] pool.upstreams@[j] == before[j],
        decreases n - i,
    {
        if let Some(row) = snap.row_of(pool.upstreams[i].name.as_str()) {
            pool.upstreams[i].restore_lifetime(
                row.credits_total,
                row.requests_ok,
                row.requests_rate_limited,
                row.requests_error,
                row.rate_limit_hits,
            );
            pool.upstreams[i].restore_day_start(row.day_start_total);
        }
        i += 1;
    }
    assert(pool.upstreams@ =~= before.map_values(|u: Upstream| revived(u, *snap)));
    stats.current_day = snap.current_day;
    stats.all_exhausted = snap.all_exhausted;
    stats.methods = snap.methods.clone();
    stats.history = copied_months(&snap.history);
    stats.daily_history = copied_days(&snap.daily_history);
}

/// A restart loses nothing: a key that starts with what was captured of the key of its name
/// has the same usage in the same month, and the same lifetime counters in any. What is
/// transient is not captured, and stays as the key started with it.
pub proof fn a_key_survives_a_restart(
    before: Seq<Upstream>,
    i: int,
    snap: Snapshot,
    life: LifetimeSnapshot,
    up: Upstream,
    policy: SnapshotErrorPolicy,
    cur: u32,
)
    requires
        rows(snap.upstreams@) == monthly_usage(before),
        lifetime_rows(life.upstreams@) == lifetimes(before),
        first_named(before, up.name@, i),
    ensures
        ({
            let month = up.in_month(cur, starting_usage(up, Ok(Some(snap)), policy, cur));
            let after = revived(month, life);
            &&& after.credits_used == (if snap.epoch_yyyymm == cur {
                before[i].credits_used
            } else {
                0
            })
            &&& after.epoch_yyyymm == cur
            &&& after.lifetime() == before[i].lifetime()
            &&& after.used_today() == before[i].used_today()
            &&& after.in_flight == up.in_flight
            &&& after.cooldown_until == up.cooldown_until
            &&& after.backoff_step == up.backoff_step
        }),
{
    lemma_lookup_found(monthly_usage(before), up.name@, i);
    lemma_lookup_found(lifetimes(before), up.name@, i);
}

/// The statistics survive a restart: what was captured of them is what is restored.
pub proof fn statistics_survive_a_restart(snap: LifetimeSnapshot, before: Stats, after: Stats)
    requires
        snap.holds(before),
        snap.holds(after),
    ensures
        after.current_day == before.current_day,
        after.all_exhausted == before.all_exhausted,
        after.methods@ == before.methods@,
        months(after.history@) == months(before.history@),
        days(after.daily_history@) == days(before.daily_history@),
{
    assert(after.methods@ =~= before.methods@);
}

} // verus!
