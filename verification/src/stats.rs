//! Process-wide statistics that persist across restarts.
//!
//! Holds the global counters (all-exhausted, per-method tallies) and the usage
//! history by month and by day, and coordinates the UTC rollovers. Together with
//! the per-key lifetime counters on [`Upstream`], this is the durable source of
//! truth; on boot it is restored and replayed into the metrics recorder so that
//! the exposition resumes from where it left off. Counters have a fixed width and wrap.

use vstd::prelude::*;

use crate::credits::{borrowed_texts, methods, tallied, Parsed};
use crate::metrics::{readings, Metric, Reading, Sample};
use crate::name_map::NameMap;
use crate::upstream::{Pool, Upstream};

verus! {

/// Per-key credit usage within an accounting period.
#[derive(Debug)]
pub struct UsagePoint {
    pub name: String,
    pub credits_used: u64,
}

impl View for UsagePoint {
    type V = (Seq<char>, u64);

    open spec fn view(&self) -> (Seq<char>, u64) {
        (self.name@, self.credits_used)
    }
}

impl Clone for UsagePoint {
    fn clone(&self) -> (point: Self)
        ensures
            point@ == self@,
    {
        UsagePoint { name: self.name.clone(), credits_used: self.credits_used }
    }
}

fn copied_points(points: &Vec<UsagePoint>) -> (copy: Vec<UsagePoint>)
    ensures
        usage_of(copy@) == usage_of(points@),
{
    let mut copy: Vec<UsagePoint> = Vec::new();
    let mut i: usize = 0;
    while i < points.len()
        invariant
            i <= points@.len(),
            copy@.len() == i,
            forall|j: int| 0 <= j < i ==> (#[trigger] copy@[j])@ == points@[j]@,
        decreases points@.len() - i,
    {
        copy.push(points[i].clone());
        i += 1;
    }
    assert(usage_of(copy@) =~= usage_of(points@));
    copy
}

/// A closed monthly accounting period.
#[derive(Debug)]
pub struct MonthlyRecord {
    /// The month that ended, encoded `YYYYMM`.
    pub month: u32,
    pub total_credits: u64,
    pub upstreams: Vec<UsagePoint>,
}

impl View for MonthlyRecord {
    type V = (u32, u64, Seq<(Seq<char>, u64)>);

    open spec fn view(&self) -> (u32, u64, Seq<(Seq<char>, u64)>) {
        (self.month, self.total_credits, usage_of(self.upstreams@))
    }
}

impl Clone for MonthlyRecord {
    fn clone(&self) -> (record: Self)
        ensures
            record@ == self@,
    {
        MonthlyRecord {
            month: self.month,
            total_credits: self.total_credits,
            upstreams: copied_points(&self.upstreams),
        }
    }
}

/// Some monthly records, by their views.
pub open spec fn months(records: Seq<MonthlyRecord>) -> Seq<(u32, u64, Seq<(Seq<char>, u64)>)> {
    records.map_values(|r: MonthlyRecord| r@)
}

/// A copy of some monthly records.
pub(crate) fn copied_months(records: &Vec<MonthlyRecord>) -> (copy: Vec<MonthlyRecord>)
    ensures
        months(copy@) == months(records@),
{
    let mut copy: Vec<MonthlyRecord> = Vec::new();
    let mut i: usize = 0;
    while i < records.len()
        invariant
            i <= records@.len(),
            copy@.len() == i,
            forall|j: int| 0 <= j < i ==> (#[trigger] copy@[j])@ == records@[j]@,
        decreases records@.len() - i,
    {
        copy.push(records[i].clone());
        i += 1;
    }
    assert(months(copy@) =~= months(records@));
    copy
}

/// A closed daily accounting period.
#[derive(Debug)]
pub struct DailyRecord {
    /// The day that ended, encoded `YYYYMMDD`.
    pub day: u32,
    pub total_credits: u64,
    pub upstreams: Vec<UsagePoint>,
}

impl View for DailyRecord {
    type V = (u32, u64, Seq<(Seq<char>, u64)>);

    open spec fn view(&self) -> (u32, u64, Seq<(Seq<char>, u64)>) {
        (self.day, self.total_credits, usage_of(self.upstreams@))
    }
}

impl Clone for DailyRecord {
    fn clone(&self) -> (record: Self)
        ensures
            record@ == self@,
    {
        DailyRecord {
            day: self.day,
            total_credits: self.total_credits,
            upstreams: copied_points(&self.upstreams),
        }
    }
}

/// Some daily records, by their views.
pub open spec fn days(records: Seq<DailyRecord>) -> Seq<(u32, u64, Seq<(Seq<char>, u64)>)> {
    records.map_values(|r: DailyRecord| r@)
}

/// A copy of some daily records.
pub(crate) fn copied_days(records: &Vec<DailyRecord>) -> (copy: Vec<DailyRecord>)
    ensures
        days(copy@) == days(records@),
{
    let mut copy: Vec<DailyRecord> = Vec::new();
    let mut i: usize = 0;
    while i < records.len()
        invariant
            i <= records@.len(),
            copy@.len() == i,
            forall|j: int| 0 <= j < i ==> (#[trigger] copy@[j])@ == records@[j]@,
        decreases records@.len() - i,
    {
        copy.push(records[i].clone());
        i += 1;
    }
    assert(days(copy@) =~= days(records@));
    copy
}

/// Global, durable statistics.
#[derive(Debug)]
pub struct Stats {
    /// Active accounting month (`YYYYMM`); 0 until initialized at boot.
    pub current_month: u32,
    /// Active accounting day (`YYYYMMDD`); 0 until initialized at boot.
    pub current_day: u32,
    /// Times every key was unavailable for a request.
    pub all_exhausted: u64,
    /// Lifetime per-method request counts.
    pub methods: NameMap<u64>,
    /// Closed monthly periods, oldest first.
    pub history: Vec<MonthlyRecord>,
    /// Closed daily periods, oldest first (bounded by retention).
    pub daily_history: Vec<DailyRecord>,
}

/// What each key used this month, by name.
pub open spec fn monthly_usage(ups: Seq<Upstream>) -> Seq<(Seq<char>, u64)> {
    ups.map_values(|u: Upstream| (u.name@, u.credits_used))
}

/// What each key used today, by name.
pub open spec fn daily_usage(ups: Seq<Upstream>) -> Seq<(Seq<char>, u64)> {
    ups.map_values(|u: Upstream| (u.name@, u.used_today()))
}

/// The sum of some usage.
pub open spec fn total_usage(usage: Seq<(Seq<char>, u64)>) -> nat
    decreases usage.len(),
{
    if usage.len() == 0 {
        0
    } else {
        total_usage(usage.drop_last()) + usage.last().1 as nat
    }
}

/// Some usage points, by their views.
pub open spec fn usage_of(points: Seq<UsagePoint>) -> Seq<(Seq<char>, u64)> {
    points.map_values(|p: UsagePoint| p@)
}

impl MonthlyRecord {
    /// Whether this is the record of `month` for keys in that state.
    pub open spec fn closes(&self, ups: Seq<Upstream>, month: u32) -> bool {
        &&& self.month == month
        &&& usage_of(self.upstreams@) == monthly_usage(ups)
        &&& self.total_credits == total_usage(monthly_usage(ups)) % 0x1_0000_0000_0000_0000
    }
}

impl DailyRecord {
    /// Whether this is the record of `day` for keys in that state.
    pub open spec fn closes(&self, ups: Seq<Upstream>, day: u32) -> bool {
        &&& self.day == day
        &&& usage_of(self.upstreams@) == daily_usage(ups)
        &&& self.total_credits == total_usage(daily_usage(ups)) % 0x1_0000_0000_0000_0000
    }
}

fn usage_points(pool: &Pool, used: impl Fn(&Upstream) -> u64) -> (points: Vec<UsagePoint>)
    requires
        forall|u: &Upstream| call_requires(used, (u,)),
    ensures
        points@.len() == pool.upstreams@.len(),
        forall|i: int|
            0 <= i < points@.len() ==> (#[trigger] points@[i]).name@ == pool.upstreams@[i].name@
                && call_ensures(used, (&pool.upstreams@[i],), points@[i].credits_used),
{
    let mut points: Vec<UsagePoint> = Vec::new();
    let mut i: usize = 0;
    while i < pool.upstreams.len()
        invariant
            i <= pool.upstreams@.len(),
            points@.len() == i,
            forall|u: &Upstream| call_requires(used, (u,)),
            forall|j: int|
                0 <= j < i ==> (#[trigger] points@[j]).name@ == pool.upstreams@[j].name@
                    && call_ensures(used, (&pool.upstreams@[j],), points@[j].credits_used),
        decreases pool.upstreams@.len() - i,
    {
        let up = &pool.upstreams[i];
        points.push(UsagePoint { name: up.name.clone(), credits_used: used(up) });
        i += 1;
    }
    points
}

fn sum_of(points: &Vec<UsagePoint>) -> (total: u64)
    ensures
        total == total_usage(usage_of(points@)) % 0x1_0000_0000_0000_0000,
{
    let mut total: u64 = 0;
    let mut i: usize = 0;
    let ghost usage = usage_of(points@);
    while i < points.len()
        invariant
            i <= points@.len(),
            usage == usage_of(points@),
            total == total_usage(usage.take(i as int)) % 0x1_0000_0000_0000_0000,
        decreases points@.len() - i,
    {
        assert(usage.take(i + 1).drop_last() == usage.take(i as int));
        total = total.wrapping_add(points[i].credits_used);
        i += 1;
    }
    assert(usage.take(i as int) == usage);
    total
}

/// Build a [`MonthlyRecord`] from the pool's current monthly counters.
pub fn capture_month(pool: &Pool, month: u32) -> (record: MonthlyRecord)
    ensures
        record.closes(pool.upstreams@, month),
{
    let used = |u: &Upstream| -> (credits: u64)
        ensures
            credits == u.credits_used,
        { u.credits_used() };
    let upstreams = usage_points(pool, used);
    assert(usage_of(upstreams@) =~= monthly_usage(pool.upstreams@));
    let total_credits = sum_of(&upstreams);
    MonthlyRecord { month, total_credits, upstreams }
}

/// Build a [`DailyRecord`] from the pool's current daily counters.
pub fn capture_day(pool: &Pool, day: u32) -> (record: DailyRecord)
    ensures
        record.closes(pool.upstreams@, day),
{
    let used = |u: &Upstream| -> (credits: u64)
        ensures
            credits == u.used_today(),
        { u.daily_used() };
    let upstreams = usage_points(pool, used);
    assert(usage_of(upstreams@) =~= daily_usage(pool.upstreams@));
    let total_credits = sum_of(&upstreams);
    DailyRecord { day, total_credits, upstreams }
}

/// The last `max` entries of a list, or all of them where `max` is zero.
pub open spec fn most_recent<T>(list: Seq<T>, max: usize) -> Seq<T> {
    if max > 0 && list.len() > max {
        list.skip(list.len() - max)
    } else {
        list
    }
}

/// Keep only the most recent `max` entries (drop from the front).
fn trim_front<T>(v: &mut Vec<T>, max: usize)
    ensures
        final(v)@ == most_recent(old(v)@, max),
{
    if max > 0 && v.len() > max {
        let drop = v.len() - max;
        let kept = v.split_off(drop);
        *v = kept;
    }
}

/// The count under a name, zero where there is none.
pub open spec fn count_of(counts: Map<Seq<char>, u64>, name: Seq<char>) -> u64 {
    if counts.contains_key(name) {
        counts[name]
    } else {
        0
    }
}

/// Some counts, with each occurrence of each name counted.
pub open spec fn tally(counts: Map<Seq<char>, u64>, names: Seq<Seq<char>>) -> Map<Seq<char>, u64>
    decreases names.len(),
{
    if names.len() == 0 {
        counts
    } else {
        let before = tally(counts, names.drop_last());
        before.insert(names.last(), count_of(before, names.last()).wrapping_add(1))
    }
}

impl Default for Stats {
    fn default() -> (stats: Self)
        ensures
            stats.well_formed(),
            stats.is_new(),
    {
        Stats::new()
    }
}

impl Stats {
    /// The method counts are listed once each, in order.
    pub open spec fn well_formed(&self) -> bool {
        self.methods.well_formed()
    }

    /// Nothing has been counted, and no period has been entered.
    pub open spec fn is_new(&self) -> bool {
        &&& self.current_month == 0
        &&& self.current_day == 0
        &&& self.all_exhausted == 0
        &&& self.methods@ == Map::<Seq<char>, u64>::empty()
        &&& self.history@ == Seq::<MonthlyRecord>::empty()
        &&& self.daily_history@ == Seq::<DailyRecord>::empty()
    }

    pub fn new() -> (stats: Self)
        ensures
            stats.well_formed(),
            stats.is_new(),
    {
        Stats {
            current_month: 0,
            current_day: 0,
            all_exhausted: 0,
            methods: NameMap::new(),
            history: Vec::new(),
            daily_history: Vec::new(),
        }
    }

    /// Count a request for which every key was unavailable.
    pub fn record_exhausted(&mut self)
        ensures
            *final(self) == (Stats {
                all_exhausted: old(self).all_exhausted.wrapping_add(1),
                ..*old(self)
            }),
    {
        self.all_exhausted = self.all_exhausted.wrapping_add(1);
    }

    /// Tally the method(s) of a request (batch expands).
    pub fn record_methods(&mut self, parsed: &Parsed)
        ensures
            final(self).methods@ == tally(old(self).methods@, tallied(parsed@)),
            *final(self) == (Stats { methods: final(self).methods, ..*old(self) }),
            old(self).well_formed() ==> final(self).well_formed(),
    {
        let names = methods(parsed);
        let ghost all = borrowed_texts(names@);
        let ghost counts = self.methods@;
        let mut i: usize = 0;
        while i < names.len()
            invariant
                i <= names@.len(),
                all == borrowed_texts(names@),
                counts == old(self).methods@,
                self.methods@ == tally(counts, all.take(i as int)),
                *self == (Stats { methods: self.methods, ..*old(self) }),
                old(self).well_formed() ==> self.well_formed(),
            decreases names@.len() - i,
        {
            let name = names[i];
            assert(all.take(i + 1).drop_last() == all.take(i as int));
            assert(all.take(i + 1).last() == name@);
            let count = match self.methods.get(name) {
                Some(count) => count,
                None => 0,
            };
            self.methods.insert(name.to_string(), count.wrapping_add(1));
            i += 1;
        }
        assert(all.take(i as int) == all);
    }

    /// If the UTC month has changed, close out the previous month into history
    /// and reset every key's monthly counter.
    pub fn roll_month_if_changed(&mut self, pool: &mut Pool, cur_yyyymm: u32)
        ensures
            *final(self) == (Stats {
                current_month: cur_yyyymm,
                history: final(self).history,
                ..*old(self)
            }),
            *final(pool) == (Pool { upstreams: final(pool).upstreams, ..*old(pool) }),
            month_rolled(*old(self), old(pool).upstreams@, *final(self), final(pool).upstreams@),
    {
        let prev = self.current_month;
        if prev == cur_yyyymm {
            return;
        }
        self.current_month = cur_yyyymm;
        if prev != 0 {
            let record = capture_month(pool, prev);
            self.history.push(record);
            assert(self.history@.drop_last() == old(self).history@);
        }
        let n = pool.upstreams.len();
        let ghost before = pool.upstreams@;
        let mut i: usize = 0;
        while i < n
            invariant
                i <= n,
                n == pool.upstreams@.len(),
                n == before.len(),
                *pool == (Pool { upstreams: pool.upstreams, ..*old(pool) }),
                forall|j: int|
                    0 <= j < i ==> #[trigger] pool.upstreams@[j] == before[j].in_month(
                        cur_yyyymm,
                        0,
                    ),
                forall|j: int| i <= j < n ==> #[trigger] pool.upstreams@[j] == before[j],
            decreases n - i,
        {
            pool.upstreams[i].reset_monthly(cur_yyyymm);
            i += 1;
        }
        assert(pool.upstreams@ =~= before.map_values(
            |u: Upstream| u.in_month(cur_yyyymm, 0),
        ));
    }

    /// If the UTC day has changed, close the previous day into the daily history
    /// (trimmed to `retention_days`) and re-baseline each key's daily counter.
    pub fn roll_day_if_changed(
        &mut self,
        pool: &mut Pool,
        cur_yyyymmdd: u32,
        retention_days: usize,
    )
        ensures
            *final(self) == (Stats {
                current_day: cur_yyyymmdd,
                daily_history: final(self).daily_history,
                ..*old(self)
            }),
            *final(pool) == (Pool { upstreams: final(pool).upstreams, ..*old(pool) }),
            day_rolled(
                *old(self),
                old(pool).upstreams@,
                *final(self),
                final(pool).upstreams@,
                retention_days,
            ),
    {
        let prev = self.current_day;
        if prev == cur_yyyymmdd {
            return;
        }
        self.current_day = cur_yyyymmdd;
        if prev != 0 {
            let record = capture_day(pool, prev);
            assert(record.closes(old(pool).upstreams@, prev));
            self.push_daily(record, retention_days);
        }
        let n = pool.upstreams.len();
        let ghost before = pool.upstreams@;
        let mut i: usize = 0;
        while i < n
            invariant
                i <= n,
                n == pool.upstreams@.len(),
                n == before.len(),
                *pool == (Pool { upstreams: pool.upstreams, ..*old(pool) }),
                forall|j: int| 0 <= j < i ==> #[trigger] pool.upstreams@[j] == before[j].rebased(),
                forall|j: int| i <= j < n ==> #[trigger] pool.upstreams@[j] == before[j],
            decreases n - i,
        {
            pool.upstreams[i].start_new_day();
            i += 1;
        }
        assert(pool.upstreams@ =~= before.map_values(|u: Upstream| u.rebased()));
    }

    /// Append a closed day to the history, trimmed to `retention_days`.
    pub fn push_daily(&mut self, record: DailyRecord, retention_days: usize)
        ensures
            final(self).daily_history@ == most_recent(
                old(self).daily_history@.push(record),
                retention_days,
            ),
            *final(self) == (Stats { daily_history: final(self).daily_history, ..*old(self) }),
    {
        self.daily_history.push(record);
        trim_front(&mut self.daily_history, retention_days);
    }

    /// Snapshot of the in-progress periods plus all closed history (for `/stats/history`).
    pub fn history_view(&self, pool: &Pool) -> (view: HistoryView<'_>)
        ensures
            view.current_month == self.current_month,
            view.current.closes(pool.upstreams@, self.current_month),
            *view.history == self.history,
            view.current_day == self.current_day,
            view.today.closes(pool.upstreams@, self.current_day),
            *view.daily_history == self.daily_history,
    {
        let month = self.current_month;
        let day = self.current_day;
        HistoryView {
            current_month: month,
            current: capture_month(pool, month),
            history: &self.history,
            current_day: day,
            today: capture_day(pool, day),
            daily_history: &self.daily_history,
        }
    }
}

/// What the statistics and the keys become when the month is `after.current_month`: nothing
/// changes where that month was the active one. Otherwise the month before, if there was one,
/// is closed into the history, and every key starts the new month at zero.
pub open spec fn month_rolled(
    before: Stats,
    ups: Seq<Upstream>,
    after: Stats,
    after_ups: Seq<Upstream>,
) -> bool {
    if before.current_month == after.current_month {
        after.history == before.history && after_ups == ups
    } else {
        &&& after_ups == ups.map_values(|u: Upstream| u.in_month(after.current_month, 0))
        &&& if before.current_month == 0 {
            after.history == before.history
        } else {
            &&& after.history@.len() == before.history@.len() + 1
            &&& after.history@.drop_last() == before.history@
            &&& after.history@.last().closes(ups, before.current_month)
        }
    }
}

/// What the statistics and the keys become when the day is `after.current_day`: nothing
/// changes where that day was the active one. Otherwise the day before, if there was one, is
/// closed into the history, of which the most recent days are kept, and every key starts the
/// new day at zero.
pub open spec fn day_rolled(
    before: Stats,
    ups: Seq<Upstream>,
    after: Stats,
    after_ups: Seq<Upstream>,
    retention_days: usize,
) -> bool {
    if before.current_day == after.current_day {
        after.daily_history == before.daily_history && after_ups == ups
    } else {
        &&& after_ups == ups.map_values(|u: Upstream| u.rebased())
        &&& if before.current_day == 0 {
            after.daily_history == before.daily_history
        } else {
            exists|record: DailyRecord| #[trigger]
                record.closes(ups, before.current_day) && after.daily_history@ == most_recent(
                    before.daily_history@.push(record),
                    retention_days,
                )
        }
    }
}

/// The in-progress periods and all closed history.
pub struct HistoryView<'a> {
    pub current_month: u32,
    pub current: MonthlyRecord,
    pub history: &'a Vec<MonthlyRecord>,
    pub current_day: u32,
    pub today: DailyRecord,
    pub daily_history: &'a Vec<DailyRecord>,
}

/// A total of one key.
pub open spec fn key_reading(metric: Metric, name: Seq<char>, value: u64) -> Reading {
    Reading { metric, labels: seq![("upstream"@, name)], value }
}

/// How many requests to one key had that outcome.
pub open spec fn outcome_reading(name: Seq<char>, outcome: Seq<char>, value: u64) -> Reading {
    Reading {
        metric: Metric::RequestsTotal,
        labels: seq![("upstream"@, name), ("outcome"@, outcome)],
        value,
    }
}

/// What one key contributes to a replay. Credits appear only where some were charged.
pub open spec fn key_replay(up: Upstream) -> Seq<Reading> {
    let name = up.name@;
    (if up.credits_total > 0 {
        seq![key_reading(Metric::CreditsConsumedTotal, name, up.credits_total)]
    } else {
        Seq::empty()
    }) + seq![
        outcome_reading(name, "ok"@, up.requests_ok),
        outcome_reading(name, "rate_limited"@, up.requests_rate_limited),
        outcome_reading(name, "error"@, up.requests_error),
        key_reading(Metric::RateLimitHitsTotal, name, up.rate_limit_hits),
        key_reading(Metric::CreditsRemaining, name, up.remaining()),
    ]
}

/// What the keys contribute to a replay, one after the other.
pub open spec fn keys_replay(ups: Seq<Upstream>) -> Seq<Reading>
    decreases ups.len(),
{
    if ups.len() == 0 {
        Seq::empty()
    } else {
        keys_replay(ups.drop_last()) + key_replay(ups.last())
    }
}

/// What the method counts contribute to a replay, in the order of their list.
pub open spec fn methods_replay(counts: Seq<(Seq<char>, u64)>) -> Seq<Reading> {
    counts.map_values(
        |c: (Seq<char>, u64)|
            Reading { metric: Metric::RpcMethodTotal, labels: seq![("method"@, c.0)], value: c.1 },
    )
}

/// What the count of unserved requests contributes to a replay, if there were any.
pub open spec fn exhausted_replay(all_exhausted: u64) -> Seq<Reading> {
    if all_exhausted > 0 {
        seq![
            Reading {
                metric: Metric::AllExhaustedTotal,
                labels: Seq::empty(),
                value: all_exhausted,
            },
        ]
    } else {
        Seq::empty()
    }
}

fn put(samples: &mut Vec<Sample>, sample: Sample)
    ensures
        readings(final(samples)@) == readings(old(samples)@).push(sample@),
{
    samples.push(sample);
    assert(readings(samples@) =~= readings(old(samples)@).push(sample@));
}

fn total_of_key(metric: Metric, name: &str, value: u64) -> (sample: Sample)
    ensures
        sample@ == key_reading(metric, name@, value),
{
    let sample = Sample::plain(metric, value).with("upstream", name);
    assert(sample@.labels =~= seq![("upstream"@, name@)]);
    sample
}

fn requests_of_key(name: &str, outcome: &str, value: u64) -> (sample: Sample)
    ensures
        sample@ == outcome_reading(name@, outcome@, value),
{
    let sample = Sample::plain(Metric::RequestsTotal, value).with("upstream", name).with(
        "outcome",
        outcome,
    );
    assert(sample@.labels =~= seq![("upstream"@, name@), ("outcome"@, outcome@)]);
    sample
}

fn increment_nonzero(samples: &mut Vec<Sample>, metric: Metric, upstream: &str, value: u64)
    ensures
        readings(final(samples)@) == readings(old(samples)@) + (if value > 0 {
            seq![key_reading(metric, upstream@, value)]
        } else {
            Seq::empty()
        }),
{
    if value > 0 {
        put(samples, total_of_key(metric, upstream, value));
    }
    assert(readings(samples@) =~= readings(old(samples)@) + (if value > 0 {
        seq![key_reading(metric, upstream@, value)]
    } else {
        Seq::empty()
    }));
}

fn replay_key(samples: &mut Vec<Sample>, up: &Upstream)
    ensures
        readings(final(samples)@) == readings(old(samples)@) + key_replay(*up),
{
    let name = up.name.as_str();
    increment_nonzero(samples, Metric::CreditsConsumedTotal, name, up.credits_total());
    put(samples, requests_of_key(name, "ok", up.requests_ok()));
    put(samples, requests_of_key(name, "rate_limited", up.requests_rate_limited()));
    put(samples, requests_of_key(name, "error", up.requests_error()));
    put(samples, total_of_key(Metric::RateLimitHitsTotal, name, up.rate_limit_hits()));
    put(samples, total_of_key(Metric::CreditsRemaining, name, up.remaining_credits()));
    assert(readings(samples@) =~= readings(old(samples)@) + key_replay(*up));
}

/// After restoring durable state, replay the persisted totals into the metrics
/// recorder so that its counters continue rather than restarting at zero: these are
/// the values that it is to be brought to.
pub fn replay_to_prometheus(pool: &Pool, stats: &Stats) -> (samples: Vec<Sample>)
    ensures
        readings(samples@) == keys_replay(pool.upstreams@) + methods_replay(stats.methods.list())
            + exhausted_replay(stats.all_exhausted),
{
    let mut samples: Vec<Sample> = Vec::new();
    assert(readings(samples@) =~= Seq::<Reading>::empty());
    let ghost ups = pool.upstreams@;
    let mut i: usize = 0;
    while i < pool.upstreams.len()
        invariant
            i <= ups.len(),
            ups == pool.upstreams@,
            readings(samples@) == keys_replay(ups.take(i as int)),
        decreases ups.len() - i,
    {
        assert(ups.take(i + 1).drop_last() == ups.take(i as int));
        replay_key(&mut samples, &pool.upstreams[i]);
        i += 1;
    }
    assert(ups.take(i as int) == ups);
    let ghost keys = keys_replay(ups);
    let ghost counts = stats.methods.list();
    let mut j: usize = 0;
    assert(readings(samples@) =~= keys + methods_replay(counts.take(0)));
    while j < stats.methods.len()
        invariant
            j <= counts.len(),
            counts == stats.methods.list(),
            readings(samples@) == keys + methods_replay(counts.take(j as int)),
        decreases counts.len() - j,
    {
        let name = stats.methods.name_at(j);
        let sample = Sample::plain(Metric::RpcMethodTotal, stats.methods.value_at(j)).with(
            "method",
            name,
        );
        assert(sample@.labels =~= seq![("method"@, name@)]);
        put(&mut samples, sample);
        assert(methods_replay(counts.take(j + 1)) =~= methods_replay(counts.take(j as int)).push(
            sample@,
        ));
        j += 1;
    }
    assert(counts.take(j as int) == counts);
    let all = stats.all_exhausted;
    if all > 0 {
        put(&mut samples, Sample::plain(Metric::AllExhaustedTotal, all));
    }
    assert(readings(samples@) =~= keys + methods_replay(counts) + exhausted_replay(all));
    samples
}

/// How often a name occurs in a list.
pub open spec fn occurrences(names: Seq<Seq<char>>, name: Seq<char>) -> nat
    decreases names.len(),
{
    if names.len() == 0 {
        0
    } else {
        occurrences(names.drop_last(), name) + (if names.last() == name {
            1nat
        } else {
            0nat
        })
    }
}

/// A tally raises the count of each name by the number of times that it occurs.
pub proof fn a_tally_counts_every_occurrence(
    counts: Map<Seq<char>, u64>,
    names: Seq<Seq<char>>,
    name: Seq<char>,
)
    ensures
        count_of(tally(counts, names), name) == (count_of(counts, name) + occurrences(names, name))
            % 0x1_0000_0000_0000_0000,
    decreases names.len(),
{
    if names.len() > 0 {
        a_tally_counts_every_occurrence(counts, names.drop_last(), name);
    }
}

/// Rolling the month a second time changes nothing: a month is closed once.
pub proof fn a_month_is_closed_once(
    before: Stats,
    ups: Seq<Upstream>,
    mid: Stats,
    mid_ups: Seq<Upstream>,
    after: Stats,
    after_ups: Seq<Upstream>,
)
    requires
        month_rolled(before, ups, mid, mid_ups),
        month_rolled(mid, mid_ups, after, after_ups),
        after.current_month == mid.current_month,
    ensures
        after.history == mid.history,
        after_ups == mid_ups,
{
}

/// A new month starts every key at zero, keeps the lifetime totals, and the record of the
/// month that ended holds what each key had used.
pub proof fn a_new_month_starts_at_zero(
    before: Stats,
    ups: Seq<Upstream>,
    after: Stats,
    after_ups: Seq<Upstream>,
    i: int,
)
    requires
        month_rolled(before, ups, after, after_ups),
        before.current_month != after.current_month,
        0 <= i < ups.len(),
    ensures
        after_ups.len() == ups.len(),
        after_ups[i].credits_used == 0,
        after_ups[i].remaining() == ups[i].credit_cap,
        after_ups[i].epoch_yyyymm == after.current_month,
        after_ups[i].credits_total == ups[i].credits_total,
        after_ups[i].used_today() == ups[i].used_today(),
        before.current_month != 0 ==> after.history@.last().upstreams@[i]@ == (
            ups[i].name@,
            ups[i].credits_used,
        ),
{
    if before.current_month != 0 {
        let record = after.history@.last();
        assert(usage_of(record.upstreams@)[i] == monthly_usage(ups)[i]);
    }
}

/// Rolling the day a second time changes nothing: a day is closed once.
pub proof fn a_day_is_closed_once(
    before: Stats,
    ups: Seq<Upstream>,
    mid: Stats,
    mid_ups: Seq<Upstream>,
    after: Stats,
    after_ups: Seq<Upstream>,
    retention_days: usize,
)
    requires
        day_rolled(before, ups, mid, mid_ups, retention_days),
        day_rolled(mid, mid_ups, after, after_ups, retention_days),
        after.current_day == mid.current_day,
    ensures
        after.daily_history == mid.daily_history,
        after_ups == mid_ups,
{
}

/// A new day starts every key's daily count at zero, leaves the month and the lifetime total
/// alone, and the last record holds what each key had used in the day that ended.
pub proof fn a_new_day_starts_at_zero(
    before: Stats,
    ups: Seq<Upstream>,
    after: Stats,
    after_ups: Seq<Upstream>,
    retention_days: usize,
    i: int,
)
    requires
        day_rolled(before, ups, after, after_ups, retention_days),
        before.current_day != after.current_day,
        0 <= i < ups.len(),
    ensures
        after_ups.len() == ups.len(),
        after_ups[i].used_today() == 0,
        after_ups[i].credits_used == ups[i].credits_used,
        after_ups[i].credits_total == ups[i].credits_total,
        before.current_day != 0 ==> {
            &&& after.daily_history@.len() > 0
            &&& after.daily_history@.last().day == before.current_day
            &&& after.daily_history@.last().upstreams@[i]@ == (ups[i].name@, ups[i].used_today())
        },
{
    if before.current_day != 0 {
        let record = choose|record: DailyRecord| #[trigger]
            record.closes(ups, before.current_day) && after.daily_history@ == most_recent(
                before.daily_history@.push(record),
                retention_days,
            );
        assert(after.daily_history@.last() == record);
        assert(usage_of(record.upstreams@)[i] == daily_usage(ups)[i]);
    }
}

/// What is kept is the end of the list, in order, and no longer than the retention, where
/// there is one.
pub proof fn retention_keeps_the_most_recent<T>(list: Seq<T>, record: T, max: usize)
    ensures
        max > 0 ==> most_recent(list.push(record), max).len() <= max,
        most_recent(list.push(record), max).last() == record,
        max == 0 || list.len() < max ==> most_recent(list.push(record), max) == list.push(record),
        forall|i: int|
            0 <= i < most_recent(list.push(record), max).len() ==> #[trigger] most_recent(
                list.push(record),
                max,
            )[i] == list.push(record)[list.len() + 1 - most_recent(list.push(record), max).len()
                + i],
{
}

/// What each key was ever charged, by name.
pub open spec fn lifetime_usage(ups: Seq<Upstream>) -> Seq<(Seq<char>, u64)> {
    ups.map_values(|u: Upstream| (u.name@, u.credits_total))
}

/// The credits that some closed days hold together.
pub open spec fn closed_credits(records: Seq<DailyRecord>) -> nat
    decreases records.len(),
{
    if records.len() == 0 {
        0
    } else {
        closed_credits(records.drop_last()) + records.last().total_credits as nat
    }
}

/// The credits that some closed days hold for the key at `i`.
pub open spec fn closed_credits_of(records: Seq<DailyRecord>, i: int) -> nat
    decreases records.len(),
{
    if records.len() == 0 {
        0
    } else {
        closed_credits_of(records.drop_last(), i)
            + records.last().upstreams@[i].credits_used as nat
    }
}

/// Whether a record has a point for each of some keys, in their order, and adds them up.
pub open spec fn covers(record: DailyRecord, ups: Seq<Upstream>) -> bool {
    &&& record.upstreams@.len() == ups.len()
    &&& record.total_credits == total_usage(usage_of(record.upstreams@))
    &&& forall|i: int|
        0 <= i < ups.len() ==> (#[trigger] record.upstreams@[i]).name@ == ups[i].name@
}

/// Whether every credit that was ever charged is counted once: in a closed day, or in the open
/// one. This holds for all the keys together, and for each of them.
pub open spec fn every_credit_counts_once(records: Seq<DailyRecord>, ups: Seq<Upstream>) -> bool {
    &&& closed_credits(records) + total_usage(daily_usage(ups)) == total_usage(lifetime_usage(ups))
    &&& forall|i: int|
        0 <= i < ups.len() ==> {
            &&& (#[trigger] ups[i]).day_start_total <= ups[i].credits_total
            &&& closed_credits_of(records, i) + ups[i].used_today() == ups[i].credits_total
        }
    &&& forall|k: int| 0 <= k < records.len() ==> covers(#[trigger] records[k], ups)
}

proof fn lemma_total_updated(usage: Seq<(Seq<char>, u64)>, i: int, point: (Seq<char>, u64))
    requires
        0 <= i < usage.len(),
    ensures
        total_usage(usage.update(i, point)) == total_usage(usage) - usage[i].1 + point.1,
    decreases usage.len(),
{
    let after = usage.update(i, point);
    if i == usage.len() - 1 {
        assert(after.drop_last() =~= usage.drop_last());
    } else {
        assert(after.drop_last() =~= usage.drop_last().update(i, point));
        lemma_total_updated(usage.drop_last(), i, point);
    }
}

proof fn lemma_total_of_nothing(usage: Seq<(Seq<char>, u64)>)
    requires
        forall|i: int| 0 <= i < usage.len() ==> (#[trigger] usage[i]).1 == 0,
    ensures
        total_usage(usage) == 0,
    decreases usage.len(),
{
    if usage.len() > 0 {
        assert(usage[usage.len() - 1].1 == 0);
        assert forall|i: int| 0 <= i < usage.drop_last().len() implies (
        #[trigger] usage.drop_last()[i]).1 == 0 by {
            assert(usage[i].1 == 0);
        }
        lemma_total_of_nothing(usage.drop_last());
    }
}

/// Before the first charge there is nothing to count.
pub proof fn fresh_keys_have_nothing_to_count(ups: Seq<Upstream>)
    requires
        forall|i: int|
            0 <= i < ups.len() ==> (#[trigger] ups[i]).credits_total == 0
                && ups[i].day_start_total == 0,
    ensures
        every_credit_counts_once(Seq::empty(), ups),
{
    lemma_total_of_nothing(daily_usage(ups));
    lemma_total_of_nothing(lifetime_usage(ups));
}

/// A charge is counted once, in the open day.
pub proof fn a_charge_counts_once(
    records: Seq<DailyRecord>,
    ups: Seq<Upstream>,
    i: int,
    cost: u64,
)
    requires
        every_credit_counts_once(records, ups),
        0 <= i < ups.len(),
        ups[i].credits_total + cost <= u64::MAX,
    ensures
        every_credit_counts_once(records, ups.update(i, ups[i].charged(cost))),
{
    let after = ups.update(i, ups[i].charged(cost));
    let name = ups[i].name@;
    assert(ups[i].day_start_total <= ups[i].credits_total);
    let today = (name, (ups[i].used_today() + cost) as u64);
    let ever = (name, (ups[i].credits_total + cost) as u64);
    lemma_total_updated(daily_usage(ups), i, today);
    lemma_total_updated(lifetime_usage(ups), i, ever);
    assert(daily_usage(after) =~= daily_usage(ups).update(i, today));
    assert(lifetime_usage(after) =~= lifetime_usage(ups).update(i, ever));
    assert forall|j: int| 0 <= j < after.len() implies {
        &&& (#[trigger] after[j]).day_start_total <= after[j].credits_total
        &&& closed_credits_of(records, j) + after[j].used_today() == after[j].credits_total
    } by {
        assert(ups[j].day_start_total <= ups[j].credits_total);
    }
    assert forall|k: int| 0 <= k < records.len() implies covers(#[trigger] records[k], after) by {
        assert(covers(records[k], ups));
    }
}

/// A day that is closed takes its credits out of the open day and into the history, and the
/// next one starts without any: none is lost, and none is counted twice.
pub proof fn a_closed_day_counts_once(
    before: Stats,
    ups: Seq<Upstream>,
    after: Stats,
    after_ups: Seq<Upstream>,
)
    requires
        every_credit_counts_once(before.daily_history@, ups),
        before.current_day != 0,
        day_rolled(before, ups, after, after_ups, 0),
        total_usage(lifetime_usage(ups)) <= u64::MAX,
    ensures
        every_credit_counts_once(after.daily_history@, after_ups),
{
    if before.current_day != after.current_day {
        let closed = before.daily_history@;
        let record = choose|record: DailyRecord| #[trigger]
            record.closes(ups, before.current_day) && after.daily_history@ == most_recent(
                before.daily_history@.push(record),
                0,
            );
        let all = after.daily_history@;
        assert(all == closed.push(record));
        assert(all.drop_last() =~= closed);
        lemma_total_of_nothing(daily_usage(after_ups));
        assert(lifetime_usage(after_ups) =~= lifetime_usage(ups));
        assert forall|i: int| 0 <= i < after_ups.len() implies {
            &&& (#[trigger] after_ups[i]).day_start_total <= after_ups[i].credits_total
            &&& closed_credits_of(all, i) + after_ups[i].used_today() == after_ups[i].credits_total
        } by {
            assert(ups[i].day_start_total <= ups[i].credits_total);
            assert(usage_of(record.upstreams@)[i] == daily_usage(ups)[i]);
        }
        assert forall|k: int| 0 <= k < all.len() implies covers(#[trigger] all[k], after_ups) by {
            if k < closed.len() {
                assert(covers(closed[k], ups));
                assert(all[k] == closed[k]);
            } else {
                assert(record.upstreams@.len() == usage_of(record.upstreams@).len());
                assert forall|i: int| 0 <= i < after_ups.len() implies (
                #[trigger] record.upstreams@[i]).name@ == after_ups[i].name@ by {
                    assert(usage_of(record.upstreams@)[i] == daily_usage(ups)[i]);
                }
            }
        }
    }
}

/// Whether the books move from one state to the next by a charge, or by a roll of the day
/// from an entered day to another, with no limit to the history.
pub open spec fn books_move(
    stats: Stats,
    ups: Seq<Upstream>,
    next: Stats,
    next_ups: Seq<Upstream>,
) -> bool {
    ||| next == stats && exists|i: int, cost: u64|
        0 <= i < ups.len() && ups[i].credits_total + cost <= u64::MAX && next_ups
            == #[trigger] ups.update(i, ups[i].charged(cost))
    ||| stats.current_day != 0 && day_rolled(stats, ups, next, next_ups, 0)
}

/// Over any mix of charges and day rolls, no credit is lost and none is counted twice: the
/// closed days and the open one together hold every credit once.
pub proof fn no_credit_is_lost_over_days(stats: Seq<Stats>, ups: Seq<Seq<Upstream>>, n: int)
    requires
        stats.len() == ups.len(),
        0 <= n < ups.len(),
        every_credit_counts_once(stats[0].daily_history@, ups[0]),
        forall|k: int|
            0 <= k < ups.len() ==> total_usage(lifetime_usage(#[trigger] ups[k])) <= u64::MAX,
        forall|k: int|
            #![trigger ups[k]]
            0 <= k < ups.len() - 1 ==> books_move(stats[k], ups[k], stats[k + 1], ups[k + 1]),
    ensures
        every_credit_counts_once(stats[n].daily_history@, ups[n]),
    decreases n,
{
    if n > 0 {
        no_credit_is_lost_over_days(stats, ups, n - 1);
        let (s, u) = (stats[n - 1], ups[n - 1]);
        assert(books_move(s, u, stats[n], ups[n]));
        if s.current_day != 0 && day_rolled(s, u, stats[n], ups[n], 0) {
            a_closed_day_counts_once(s, u, stats[n], ups[n]);
        } else {
            let (i, cost) = choose|i: int, cost: u64|
                0 <= i < u.len() && u[i].credits_total + cost <= u64::MAX && ups[n]
                    == #[trigger] u.update(i, u[i].charged(cost));
            a_charge_counts_once(s.daily_history@, u, i, cost);
        }
    }
}

} // verus!
