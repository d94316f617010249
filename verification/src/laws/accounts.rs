//! What is counted, kept, closed and restored, and which configuration is refused.

use vstd::prelude::*;

use crate::config::{
    first_upstream_fault, upstream_fault, Config, ConfigError, ConfigFault, SnapshotErrorPolicy,
    UpstreamConfig,
};
use crate::metrics::{label_texts, readings, Metric, Reading, Sample};
use crate::persistence::{
    lifetime_rows, lifetimes, revived, rows, started, starting_usage, LifetimeSnapshot, Snapshot,
    Unreadable,
};
use crate::stats::{
    a_tally_counts_every_occurrence, count_of, daily_usage, day_rolled, days, exhausted_replay,
    key_replay, keys_replay, methods_replay, month_rolled, monthly_usage, months, most_recent,
    occurrences, tally, total_usage, usage_of, DailyRecord, MonthlyRecord, Stats,
};
use crate::text::trimmed;
use crate::upstream::Upstream;

use super::texts::a_name_is_looked_up_in_its_first_entry;

verus! {

/// The record of a month has a point for each key, in order, with its name and what it used in
/// the month; its total is their sum.
pub proof fn a_monthly_record_adds_up(
    record: MonthlyRecord,
    ups: Seq<Upstream>,
    month: u32,
    i: int,
)
    requires
        record.closes(ups, month),
    ensures
        record.month == month,
        record.upstreams@.len() == ups.len(),
        0 <= i < ups.len() ==> record.upstreams@[i].name@ == ups[i].name@
            && record.upstreams@[i].credits_used == ups[i].credits_used,
        record.total_credits == ups.fold_left(0int, |sum: int, u: Upstream| sum + u.credits_used)
            % 0x1_0000_0000_0000_0000,
{
    let points = record.upstreams@;
    assert(usage_of(points).len() == monthly_usage(ups).len());
    if 0 <= i < ups.len() {
        assert(usage_of(points)[i] == monthly_usage(ups)[i]);
        assert(usage_of(points)[i] == points[i]@);
    }
    lemma_months_sum(ups);
}

proof fn lemma_months_sum(ups: Seq<Upstream>)
    ensures
        total_usage(monthly_usage(ups)) == ups.fold_left(
            0int,
            |sum: int, u: Upstream| sum + u.credits_used,
        ),
    decreases ups.len(),
{
    if ups.len() > 0 {
        lemma_months_sum(ups.drop_last());
        assert(monthly_usage(ups).drop_last() =~= monthly_usage(ups.drop_last()));
    }
}

/// The record of a day has a point for each key, in order, with its name and what it was charged
/// since the day began; its total is their sum.
pub proof fn a_daily_record_adds_up(record: DailyRecord, ups: Seq<Upstream>, day: u32, i: int)
    requires
        record.closes(ups, day),
    ensures
        record.day == day,
        record.upstreams@.len() == ups.len(),
        0 <= i < ups.len() ==> record.upstreams@[i].name@ == ups[i].name@
            && record.upstreams@[i].credits_used == (if ups[i].credits_total
            >= ups[i].day_start_total {
            ups[i].credits_total - ups[i].day_start_total
        } else {
            0
        }),
        record.total_credits == ups.fold_left(
            0int,
            |sum: int, u: Upstream|
                sum + (if u.credits_total >= u.day_start_total {
                    u.credits_total - u.day_start_total
                } else {
                    0
                }),
        ) % 0x1_0000_0000_0000_0000,
{
    let points = record.upstreams@;
    assert(usage_of(points).len() == daily_usage(ups).len());
    if 0 <= i < ups.len() {
        assert(usage_of(points)[i] == daily_usage(ups)[i]);
        assert(usage_of(points)[i] == points[i]@);
    }
    lemma_days_sum(ups);
}

proof fn lemma_days_sum(ups: Seq<Upstream>)
    ensures
        total_usage(daily_usage(ups)) == ups.fold_left(
            0int,
            |sum: int, u: Upstream|
                sum + (if u.credits_total >= u.day_start_total {
                    u.credits_total - u.day_start_total
                } else {
                    0
                }),
        ),
    decreases ups.len(),
{
    if ups.len() > 0 {
        lemma_days_sum(ups.drop_last());
        assert(daily_usage(ups).drop_last() =~= daily_usage(ups.drop_last()));
    }
}

/// Records that show the same hold the same, field by field and point by point.
pub proof fn a_record_shows_what_it_holds(
    a: Seq<MonthlyRecord>,
    b: Seq<MonthlyRecord>,
    c: Seq<DailyRecord>,
    d: Seq<DailyRecord>,
    i: int,
    j: int,
)
    requires
        months(a) == months(b),
        days(c) == days(d),
    ensures
        a.len() == b.len(),
        0 <= i < a.len() ==> {
            &&& a[i].month == b[i].month
            &&& a[i].total_credits == b[i].total_credits
            &&& a[i].upstreams@.len() == b[i].upstreams@.len()
            &&& 0 <= j < a[i].upstreams@.len() ==> a[i].upstreams@[j].name@
                == b[i].upstreams@[j].name@ && a[i].upstreams@[j].credits_used
                == b[i].upstreams@[j].credits_used
        },
        c.len() == d.len(),
        0 <= i < c.len() ==> {
            &&& c[i].day == d[i].day
            &&& c[i].total_credits == d[i].total_credits
            &&& c[i].upstreams@.len() == d[i].upstreams@.len()
            &&& 0 <= j < c[i].upstreams@.len() ==> c[i].upstreams@[j].name@
                == d[i].upstreams@[j].name@ && c[i].upstreams@[j].credits_used
                == d[i].upstreams@[j].credits_used
        },
{
    assert(months(a).len() == a.len() && months(b).len() == b.len());
    assert(days(c).len() == c.len() && days(d).len() == d.len());
    if 0 <= i < a.len() {
        assert(months(a)[i] == a[i]@ && months(b)[i] == b[i]@);
        let (x, y) = (a[i].upstreams@, b[i].upstreams@);
        assert(usage_of(x).len() == x.len() && usage_of(y).len() == y.len());
        if 0 <= j < x.len() {
            assert(usage_of(x)[j] == x[j]@ && usage_of(y)[j] == y[j]@);
        }
    }
    if 0 <= i < c.len() {
        assert(days(c)[i] == c[i]@ && days(d)[i] == d[i]@);
        let (x, y) = (c[i].upstreams@, d[i].upstreams@);
        assert(usage_of(x).len() == x.len() && usage_of(y).len() == y.len());
        if 0 <= j < x.len() {
            assert(usage_of(x)[j] == x[j]@ && usage_of(y)[j] == y[j]@);
        }
    }
}

/// When the month changes, every key has used nothing in the new month and is otherwise as it
/// was, and one record, of the month that ended, is added behind those that were there; the
/// first month closes none. While the month is the same, nothing changes.
pub proof fn a_month_is_closed_behind_the_others(
    before: Stats,
    ups: Seq<Upstream>,
    after: Stats,
    after_ups: Seq<Upstream>,
    i: int,
    h: int,
)
    requires
        month_rolled(before, ups, after, after_ups),
    ensures
        before.current_month == after.current_month ==> after.history == before.history
            && after_ups == ups,
        after_ups.len() == ups.len(),
        before.current_month != after.current_month ==> {
            &&& 0 <= i < ups.len() ==> after_ups[i] == (Upstream {
                epoch_yyyymm: after.current_month,
                credits_used: 0,
                ..ups[i]
            })
            &&& before.current_month == 0 ==> after.history == before.history
            &&& before.current_month != 0 ==> {
                &&& after.history@.len() == before.history@.len() + 1
                &&& 0 <= h < before.history@.len() ==> after.history@[h] == before.history@[h]
                &&& after.history@.last().month == before.current_month
                &&& after.history@.last().upstreams@.len() == ups.len()
                &&& after.history@.last().total_credits == ups.fold_left(
                    0int,
                    |sum: int, u: Upstream| sum + u.credits_used,
                ) % 0x1_0000_0000_0000_0000
                &&& 0 <= i < ups.len() ==> after.history@.last().upstreams@[i].name@ == ups[i].name@
                    && after.history@.last().upstreams@[i].credits_used == ups[i].credits_used
            }
        },
{
    if before.current_month != after.current_month && before.current_month != 0 {
        a_monthly_record_adds_up(after.history@.last(), ups, before.current_month, i);
        if 0 <= h < before.history@.len() {
            assert(after.history@.drop_last()[h] == before.history@[h]);
        }
    }
}

/// When the day changes, every key starts the day from what it was charged so far and is
/// otherwise as it was, and one record, of the day that ended, is added behind those that were
/// there; of these, the oldest leave where there are more than are to be kept, and no others.
/// The first day closes none. While the day is the same, nothing changes.
pub proof fn a_day_is_closed_behind_the_others(
    before: Stats,
    ups: Seq<Upstream>,
    after: Stats,
    after_ups: Seq<Upstream>,
    retention_days: usize,
    i: int,
    h: int,
)
    requires
        day_rolled(before, ups, after, after_ups, retention_days),
    ensures
        before.current_day == after.current_day ==> after.daily_history == before.daily_history
            && after_ups == ups,
        after_ups.len() == ups.len(),
        before.current_day != after.current_day ==> {
            &&& 0 <= i < ups.len() ==> after_ups[i] == (Upstream {
                day_start_total: ups[i].credits_total,
                ..ups[i]
            })
            &&& before.current_day == 0 ==> after.daily_history == before.daily_history
            &&& before.current_day != 0 ==> {
                let kept = after.daily_history@;
                let last = kept.last();
                &&& kept.len() == (if 0 < retention_days <= before.daily_history@.len() {
                    retention_days as nat
                } else {
                    before.daily_history@.len() + 1
                })
                &&& 1 <= h < kept.len() ==> kept[kept.len() - 1 - h]
                    == before.daily_history@[before.daily_history@.len() - h]
                &&& last.day == before.current_day
                &&& last.upstreams@.len() == ups.len()
                &&& 0 <= i < ups.len() ==> last.upstreams@[i].name@ == ups[i].name@
                    && last.upstreams@[i].credits_used == (if ups[i].credits_total
                    >= ups[i].day_start_total {
                    ups[i].credits_total - ups[i].day_start_total
                } else {
                    0
                })
            }
        },
{
    if before.current_day != after.current_day && before.current_day != 0 {
        let record = choose|record: DailyRecord| #[trigger]
            record.closes(ups, before.current_day) && after.daily_history@ == most_recent(
                before.daily_history@.push(record),
                retention_days,
            );
        assert(after.daily_history@.last() == record);
        a_daily_record_adds_up(record, ups, before.current_day, i);
    }
}

/// Of a list, as many entries are kept as are asked for, or all of them where there are no more
/// or where zero are asked for; and those that are kept are the last ones, in order.
pub proof fn the_last_entries_are_kept<T>(list: Seq<T>, max: usize, h: int)
    ensures
        most_recent(list, max).len() == (if 0 < max < list.len() {
            max as int
        } else {
            list.len() as int
        }),
        0 <= h < most_recent(list, max).len() ==> most_recent(list, max)[most_recent(list, max).len()
            - 1 - h] == list[list.len() - 1 - h],
{
}

/// A tally adds to the count of each name the number of times that it occurs, and knows the
/// names it knew and those that occur.
pub proof fn a_tally_adds_each_occurrence(
    counts: Map<Seq<char>, u64>,
    names: Seq<Seq<char>>,
    name: Seq<char>,
)
    ensures
        tally(counts, names).contains_key(name) <==> counts.contains_key(name) || names.contains(
            name,
        ),
        tally(counts, names).contains_key(name) ==> tally(counts, names)[name] == ((
        if counts.contains_key(name) {
            counts[name]
        } else {
            0
        }) + names.filter(|n: Seq<char>| n == name).len()) % 0x1_0000_0000_0000_0000,
{
    a_tally_counts_every_occurrence(counts, names, name);
    lemma_tally_names(counts, names, name);
    lemma_occurrences(names, name);
    assert(tally(counts, names).contains_key(name) ==> tally(counts, names)[name] == count_of(
        tally(counts, names),
        name,
    ));
}

proof fn lemma_tally_names(
    counts: Map<Seq<char>, u64>,
    names: Seq<Seq<char>>,
    name: Seq<char>,
)
    ensures
        tally(counts, names).contains_key(name) <==> counts.contains_key(name) || names.contains(
            name,
        ),
    decreases names.len(),
{
    if names.len() > 0 {
        let before = names.drop_last();
        lemma_tally_names(counts, before, name);
        if before.contains(name) {
            let i = choose|i: int| 0 <= i < before.len() && before[i] == name;
            assert(names[i] == name);
        }
        if names.contains(name) && names.last() != name {
            let i = choose|i: int| 0 <= i < names.len() && names[i] == name;
            assert(before[i] == name);
        }
        assert(names[names.len() - 1] == names.last());
    }
}

proof fn lemma_occurrences(names: Seq<Seq<char>>, name: Seq<char>)
    ensures
        occurrences(names, name) == names.filter(|n: Seq<char>| n == name).len(),
    decreases names.len(),
{
    reveal(Seq::filter);
    if names.len() > 0 {
        lemma_occurrences(names.drop_last(), name);
    }
}

/// What one key contributes to a replay: what it was charged, if anything; its requests by their
/// three outcomes; its rate limits; and what remains of its cap. Each under the key's name.
pub proof fn what_a_key_replays(up: Upstream)
    ensures
        ({
            let name = up.name@;
            let all = key_replay(up);
            let k = if up.credits_total > 0 {
                1int
            } else {
                0
            };
            &&& all.len() == k + 5
            &&& up.credits_total > 0 ==> all[0] == (Reading {
                metric: Metric::CreditsConsumedTotal,
                labels: seq![("upstream"@, name)],
                value: up.credits_total,
            })
            &&& all[k] == (Reading {
                metric: Metric::RequestsTotal,
                labels: seq![("upstream"@, name), ("outcome"@, "ok"@)],
                value: up.requests_ok,
            })
            &&& all[k + 1] == (Reading {
                metric: Metric::RequestsTotal,
                labels: seq![("upstream"@, name), ("outcome"@, "rate_limited"@)],
                value: up.requests_rate_limited,
            })
            &&& all[k + 2] == (Reading {
                metric: Metric::RequestsTotal,
                labels: seq![("upstream"@, name), ("outcome"@, "error"@)],
                value: up.requests_error,
            })
            &&& all[k + 3] == (Reading {
                metric: Metric::RateLimitHitsTotal,
                labels: seq![("upstream"@, name)],
                value: up.rate_limit_hits,
            })
            &&& all[k + 4].metric == Metric::CreditsRemaining
            &&& all[k + 4].labels == seq![("upstream"@, name)]
            &&& all[k + 4].value == (if up.credit_cap >= up.credits_used {
                up.credit_cap - up.credits_used
            } else {
                0
            })
        }),
{
}

/// A replay goes through all the keys, one behind the other, then through all the methods, and
/// ends with the count of unserved requests, if there were any.
pub proof fn a_replay_goes_through_everything(
    ups: Seq<Upstream>,
    up: Upstream,
    counts: Seq<(Seq<char>, u64)>,
    i: int,
    all_exhausted: u64,
)
    ensures
        keys_replay(Seq::empty()).len() == 0,
        keys_replay(ups.push(up)) == keys_replay(ups) + key_replay(up),
        keys_replay(ups) == ups.map_values(|u: Upstream| key_replay(u)).flatten(),
        methods_replay(counts).len() == counts.len(),
        0 <= i < counts.len() ==> methods_replay(counts)[i] == (Reading {
            metric: Metric::RpcMethodTotal,
            labels: seq![("method"@, counts[i].0)],
            value: counts[i].1,
        }),
        all_exhausted == 0 ==> exhausted_replay(all_exhausted).len() == 0,
        all_exhausted > 0 ==> exhausted_replay(all_exhausted) == seq![
            Reading {
                metric: Metric::AllExhaustedTotal,
                labels: Seq::empty(),
                value: all_exhausted,
            },
        ],
{
    assert(ups.push(up).drop_last() =~= ups);
    lemma_keys_flattened(ups);
}

proof fn lemma_keys_flattened(ups: Seq<Upstream>)
    ensures
        keys_replay(ups) == ups.map_values(|u: Upstream| key_replay(u)).flatten(),
    decreases ups.len(),
{
    let each = |u: Upstream| key_replay(u);
    let all = ups.map_values(each);
    if ups.len() > 0 {
        lemma_keys_flattened(ups.drop_last());
        assert(all.drop_last() =~= ups.drop_last().map_values(each));
        all.lemma_flatten_and_flatten_alt_are_equivalent();
        all.drop_last().lemma_flatten_and_flatten_alt_are_equivalent();
        assert(all.flatten_alt() == all.drop_last().flatten_alt() + all.last());
    } else {
        assert(all =~= Seq::<Seq<Reading>>::empty());
    }
}

/// The name of each metric behind the prefix.
pub proof fn metrics_go_by_these_names()
    ensures
        Metric::RequestsTotal.suffix() == "requests_total"@,
        Metric::CreditsConsumedTotal.suffix() == "credits_consumed_total"@,
        Metric::CreditsRemaining.suffix() == "credits_remaining"@,
        Metric::RateLimitHitsTotal.suffix() == "rate_limit_hits_total"@,
        Metric::UpstreamErrorsTotal.suffix() == "upstream_errors_total"@,
        Metric::Inflight.suffix() == "inflight"@,
        Metric::RpcMethodTotal.suffix() == "rpc_method_total"@,
        Metric::AllExhaustedTotal.suffix() == "all_exhausted_total"@,
        Metric::RequestDurationSeconds.suffix() == "request_duration_seconds"@,
        Metric::KeepaliveTotal.suffix() == "keepalive_total"@,
{
}

/// What a sample shows is what it holds, label by label.
pub proof fn a_sample_shows_what_it_holds(samples: Seq<Sample>, i: int, j: int)
    requires
        0 <= i < samples.len(),
    ensures
        readings(samples).len() == samples.len(),
        readings(samples)[i].metric == samples[i].metric,
        readings(samples)[i].value == samples[i].value,
        readings(samples)[i].labels == label_texts(samples[i].labels@),
        label_texts(samples[i].labels@).len() == samples[i].labels@.len(),
        0 <= j < samples[i].labels@.len() ==> label_texts(samples[i].labels@)[j] == (
            samples[i].labels@[j].0@,
            samples[i].labels@[j].1@,
        ),
{
}

/// What a key starts a month with. From a snapshot of that month: what the first row of the
/// key's name holds, and nothing where no row has the name. From a snapshot of another month or
/// from none: nothing. From one that cannot be read: nothing, or its whole cap, as the policy
/// says.
pub proof fn what_a_key_starts_a_month_with(
    up: Upstream,
    snap: Snapshot,
    policy: SnapshotErrorPolicy,
    cur: u32,
    k: int,
)
    requires
        0 <= k <= snap.upstreams@.len(),
        forall|j: int| 0 <= j < k ==> (#[trigger] snap.upstreams@[j]).name@ != up.name@,
        k < snap.upstreams@.len() ==> snap.upstreams@[k].name@ == up.name@,
    ensures
        starting_usage(up, Ok(Some(snap)), policy, cur) == (if snap.epoch_yyyymm == cur && k
            < snap.upstreams@.len() {
            snap.upstreams@[k].credits_used
        } else {
            0
        }),
        starting_usage(up, Ok(None), policy, cur) == 0,
        starting_usage(up, Err(Unreadable), SnapshotErrorPolicy::Zero, cur) == 0,
        starting_usage(up, Err(Unreadable), SnapshotErrorPolicy::Cap, cur) == up.credit_cap,
{
    let list = rows(snap.upstreams@);
    assert forall|j: int| 0 <= j < k implies (#[trigger] list[j]).0 != up.name@ by {
        assert(list[j] == snap.upstreams@[j]@);
    }
    if k < list.len() {
        assert(list[k] == snap.upstreams@[k]@);
    }
    a_name_is_looked_up_in_its_first_entry(list, up.name@, k);
}

/// A start enters the month and sets what was used in it, for every key, and changes nothing
/// else of any.
pub proof fn a_start_sets_the_month_alone(
    ups: Seq<Upstream>,
    loaded: Result<Option<Snapshot>, Unreadable>,
    policy: SnapshotErrorPolicy,
    cur: u32,
    i: int,
)
    requires
        0 <= i < ups.len(),
    ensures
        started(ups, loaded, policy, cur).len() == ups.len(),
        started(ups, loaded, policy, cur)[i] == (Upstream {
            epoch_yyyymm: cur,
            credits_used: starting_usage(ups[i], loaded, policy, cur),
            ..ups[i]
        }),
{
}

/// What is captured of the keys is the name and the usage of each, in order, and each of the
/// counters that no month resets.
pub proof fn what_is_captured_of_a_key(
    ups: Seq<Upstream>,
    snap: Snapshot,
    life: LifetimeSnapshot,
    i: int,
)
    requires
        rows(snap.upstreams@) == monthly_usage(ups),
        lifetime_rows(life.upstreams@) == lifetimes(ups),
        0 <= i < ups.len(),
    ensures
        snap.upstreams@.len() == ups.len(),
        snap.upstreams@[i].name@ == ups[i].name@,
        snap.upstreams@[i].credits_used == ups[i].credits_used,
        life.upstreams@.len() == ups.len(),
        life.upstreams@[i].name@ == ups[i].name@,
        life.upstreams@[i].credits_total == ups[i].credits_total,
        life.upstreams@[i].requests_ok == ups[i].requests_ok,
        life.upstreams@[i].requests_rate_limited == ups[i].requests_rate_limited,
        life.upstreams@[i].requests_error == ups[i].requests_error,
        life.upstreams@[i].rate_limit_hits == ups[i].rate_limit_hits,
        life.upstreams@[i].day_start_total == ups[i].day_start_total,
{
    let list = rows(snap.upstreams@);
    assert(list.len() == snap.upstreams@.len() && monthly_usage(ups).len() == ups.len());
    assert(list[i] == snap.upstreams@[i]@ && list[i] == monthly_usage(ups)[i]);
    let lives = lifetime_rows(life.upstreams@);
    assert(lives.len() == life.upstreams@.len() && lifetimes(ups).len() == ups.len());
    assert(lives[i] == life.upstreams@[i]@ && lives[i] == lifetimes(ups)[i]);
}

/// A key takes on the lifetime counters of the first row of its name, each from its own field,
/// and nothing else; where no row has its name, it stays as it is.
pub proof fn a_key_takes_on_the_row_of_its_name(up: Upstream, snap: LifetimeSnapshot, k: int)
    requires
        0 <= k <= snap.upstreams@.len(),
        forall|j: int| 0 <= j < k ==> (#[trigger] snap.upstreams@[j]).name@ != up.name@,
        k < snap.upstreams@.len() ==> snap.upstreams@[k].name@ == up.name@,
    ensures
        k == snap.upstreams@.len() ==> revived(up, snap) == up,
        k < snap.upstreams@.len() ==> revived(up, snap) == (Upstream {
            credits_total: snap.upstreams@[k].credits_total,
            requests_ok: snap.upstreams@[k].requests_ok,
            requests_rate_limited: snap.upstreams@[k].requests_rate_limited,
            requests_error: snap.upstreams@[k].requests_error,
            rate_limit_hits: snap.upstreams@[k].rate_limit_hits,
            day_start_total: snap.upstreams@[k].day_start_total,
            ..up
        }),
{
    let list = lifetime_rows(snap.upstreams@);
    assert forall|j: int| 0 <= j < k implies (#[trigger] list[j]).0 != up.name@ by {
        assert(list[j] == snap.upstreams@[j]@);
    }
    if k < list.len() {
        assert(list[k] == snap.upstreams@[k]@);
    }
    a_name_is_looked_up_in_its_first_entry(list, up.name@, k);
}

/// A restart keeps all the statistics but the month: the day, the count of unserved requests,
/// the tally of every method, and every closed record.
pub proof fn a_restart_keeps_the_statistics(
    snap: LifetimeSnapshot,
    before: Stats,
    after: Stats,
    name: Seq<char>,
    i: int,
    j: int,
)
    requires
        snap.holds(before),
        snap.holds(after),
    ensures
        after.current_day == before.current_day,
        after.all_exhausted == before.all_exhausted,
        after.methods@.contains_key(name) == before.methods@.contains_key(name),
        after.methods@.contains_key(name) ==> after.methods@[name] == before.methods@[name],
        after.history@.len() == before.history@.len(),
        0 <= i < before.history@.len() ==> {
            &&& after.history@[i].month == before.history@[i].month
            &&& after.history@[i].total_credits == before.history@[i].total_credits
            &&& after.history@[i].upstreams@.len() == before.history@[i].upstreams@.len()
            &&& 0 <= j < before.history@[i].upstreams@.len()
                ==> after.history@[i].upstreams@[j].name@ == before.history@[i].upstreams@[j].name@
                && after.history@[i].upstreams@[j].credits_used
                == before.history@[i].upstreams@[j].credits_used
        },
        after.daily_history@.len() == before.daily_history@.len(),
        0 <= i < before.daily_history@.len() ==> {
            &&& after.daily_history@[i].day == before.daily_history@[i].day
            &&& after.daily_history@[i].total_credits == before.daily_history@[i].total_credits
            &&& after.daily_history@[i].upstreams@.len()
                == before.daily_history@[i].upstreams@.len()
            &&& 0 <= j < before.daily_history@[i].upstreams@.len()
                ==> after.daily_history@[i].upstreams@[j].name@
                == before.daily_history@[i].upstreams@[j].name@
                && after.daily_history@[i].upstreams@[j].credits_used
                == before.daily_history@[i].upstreams@[j].credits_used
        },
{
    a_record_shows_what_it_holds(
        before.history@,
        after.history@,
        before.daily_history@,
        after.daily_history@,
        i,
        j,
    );
}

/// New statistics count nothing, hold no record, and are in no month and no day.
pub proof fn new_statistics_hold_nothing(stats: Stats, name: Seq<char>)
    requires
        stats.is_new(),
    ensures
        stats.current_month == 0,
        stats.current_day == 0,
        stats.all_exhausted == 0,
        !stats.methods@.contains_key(name),
        stats.history@.len() == 0,
        stats.daily_history@.len() == 0,
{
}

/// A configuration passes if and only if the gateway's key is not blank and not the placeholder,
/// there is an upstream, every upstream has a key that is not blank and a cap above zero, and a
/// request may try at least one key.
pub proof fn which_configurations_pass(config: Config)
    ensures
        config.fault() is None <==> {
            &&& trimmed(config.gateway.api_key@).len() > 0
            &&& config.gateway.api_key@ != "CHANGE_ME_gateway_token"@
            &&& config.upstreams@.len() > 0
            &&& forall|i: int|
                0 <= i < config.upstreams@.len() ==> trimmed(
                    (#[trigger] config.upstreams@[i]).api_key@,
                ).len() > 0 && config.upstreams@[i].credit_cap > 0
            &&& config.gateway.max_retries >= 1
        },
{
    let ups = config.upstreams@;
    let k = lemma_first_fault(ups);
    if forall|i: int|
        0 <= i < ups.len() ==> trimmed((#[trigger] ups[i]).api_key@).len() > 0 && ups[i].credit_cap
            > 0 {
        if k < ups.len() {
            assert(trimmed(ups[k].api_key@).len() > 0);
        }
    }
}

/// The first reason is given: the gateway's key before the upstreams, these in their order and
/// each for its key before its cap, and the number of tries last.
pub proof fn the_first_fault_is_told(config: Config, k: int)
    requires
        0 <= k <= config.upstreams@.len(),
        forall|j: int|
            0 <= j < k ==> trimmed((#[trigger] config.upstreams@[j]).api_key@).len() > 0
                && config.upstreams@[j].credit_cap > 0,
        k < config.upstreams@.len() ==> trimmed(config.upstreams@[k].api_key@).len() == 0
            || config.upstreams@[k].credit_cap == 0,
    ensures
        ({
            let key = config.gateway.api_key@;
            let ups = config.upstreams@;
            let passes = trimmed(key).len() > 0 && key != "CHANGE_ME_gateway_token"@;
            &&& trimmed(key).len() == 0 ==> config.fault() == Some(ConfigFault::EmptyGatewayKey)
            &&& trimmed(key).len() > 0 && key == "CHANGE_ME_gateway_token"@ ==> config.fault()
                == Some(ConfigFault::PlaceholderGatewayKey)
            &&& passes && ups.len() == 0 ==> config.fault() == Some(ConfigFault::NoUpstreams)
            &&& passes && k < ups.len() && trimmed(ups[k].api_key@).len() == 0 ==> config.fault()
                == Some(ConfigFault::EmptyUpstreamKey(ups[k].name@))
            &&& passes && k < ups.len() && trimmed(ups[k].api_key@).len() > 0 ==> config.fault()
                == Some(ConfigFault::ZeroCreditCap(ups[k].name@))
            &&& passes && 0 < k == ups.len() && config.gateway.max_retries == 0 ==> config.fault()
                == Some(ConfigFault::ZeroRetries)
            &&& passes && 0 < k == ups.len() && config.gateway.max_retries > 0 ==> config.fault()
                is None
        }),
{
    let ups = config.upstreams@;
    let first = lemma_first_fault(ups);
    if first < k {
        assert(trimmed(ups[first].api_key@).len() > 0);
    }
    if k < first {
        assert(upstream_fault(ups[k]) is None);
    }
}

proof fn lemma_first_fault(ups: Seq<UpstreamConfig>) -> (k: int)
    ensures
        0 <= k <= ups.len(),
        forall|j: int|
            0 <= j < k ==> upstream_fault(#[trigger] ups[j]) is None && trimmed(
                ups[j].api_key@,
            ).len() > 0 && ups[j].credit_cap > 0,
        k < ups.len() ==> first_upstream_fault(ups) is Some && first_upstream_fault(ups)
            == upstream_fault(ups[k]),
        k == ups.len() ==> first_upstream_fault(ups) is None,
    decreases ups.len(),
{
    if ups.len() == 0 || upstream_fault(ups[0]) is Some {
        0
    } else {
        let rest = ups.skip(1);
        let k = lemma_first_fault(rest);
        assert forall|j: int| 0 <= j < k + 1 implies upstream_fault(#[trigger] ups[j]) is None
            && trimmed(ups[j].api_key@).len() > 0 && ups[j].credit_cap > 0 by {
            if j > 0 {
                assert(rest[j - 1] == ups[j]);
            }
        }
        if k < rest.len() {
            assert(rest[k] == ups[k + 1]);
        }
        k + 1
    }
}

/// Each error is the fault of its name, and says so in its own words.
pub proof fn each_fault_has_its_own_words(name: String)
    ensures
        ConfigError::EmptyGatewayKey@ == ConfigFault::EmptyGatewayKey,
        ConfigError::PlaceholderGatewayKey@ == ConfigFault::PlaceholderGatewayKey,
        ConfigError::NoUpstreams@ == ConfigFault::NoUpstreams,
        (ConfigError::EmptyUpstreamKey { name })@ == ConfigFault::EmptyUpstreamKey(name@),
        (ConfigError::ZeroCreditCap { name })@ == ConfigFault::ZeroCreditCap(name@),
        ConfigError::ZeroRetries@ == ConfigFault::ZeroRetries,
        ConfigFault::EmptyGatewayKey.text() == "gateway.api_key must not be empty"@,
        ConfigFault::PlaceholderGatewayKey.text()
            == "gateway.api_key is still the placeholder — set a real value"@,
        ConfigFault::NoUpstreams.text() == "at least one [[upstreams]] entry is required"@,
        ConfigFault::EmptyUpstreamKey(name@).text() == "upstream '"@ + name@
            + "' has an empty api_key"@,
        ConfigFault::ZeroCreditCap(name@).text() == "upstream '"@ + name@ + "' has credit_cap = 0"@,
        ConfigFault::ZeroRetries.text() == "gateway.max_retries must be >= 1"@,
{
}

} // verus!
