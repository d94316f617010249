//! Which key a request goes to.

use vstd::arithmetic::div_mod::{lemma_add_mod_noop_right, lemma_small_mod};
use vstd::prelude::*;

use crate::credits::MethodClass;
use crate::ratelimit::{bucket_grants, bucket_rate};
use crate::upstream::{
    candidates, eligible, every_key_comes_up, has_capacity, lemma_candidates,
    lemma_candidates_prefix, lemma_slot, no_key_comes_up_twice,
    retry_after_is_when_a_key_leaves_cooldown, round_is_even, slot, soonest_secs, Pool, Upstream,
};

verus! {

/// A key serves a request whenever it comes up, is not to be skipped, is enabled, has the
/// credits, is not cooling, and has a token: then some key is selected. Where the key stands in
/// the pool, and what was skipped before it, is of no account.
pub proof fn a_fit_key_with_a_token_is_found(
    pool: Pool,
    after: Seq<Upstream>,
    class: MethodClass,
    cost: u64,
    skip: Seq<usize>,
    now_ms: u64,
    k: int,
    choice: Option<usize>,
    i: int,
    off: int,
)
    requires
        pool.selected(after, class, cost, skip, now_ms, k, choice),
        0 <= off < pool.upstreams@.len(),
        i == (if pool.cursor + off <= usize::MAX {
            (pool.cursor + off) % (pool.upstreams@.len() as int)
        } else {
            (pool.cursor + off - usize::MAX - 1) % (pool.upstreams@.len() as int)
        }),
        !skip.contains(i as usize),
        pool.upstreams@[i].enabled,
        pool.upstreams@[i].credits_used + cost <= pool.upstreams@[i].credit_cap
            || pool.upstreams@[i].credit_cap == u64::MAX,
        pool.upstreams@[i].cooldown_until <= now_ms,
        pool.upstreams@[i].limiters.bucket(class) matches Some(bucket) ==> bucket_grants(bucket)
            < bucket_rate(bucket),
    ensures
        choice is Some,
{
    let ups = pool.upstreams@;
    let n = ups.len() as int;
    let order = pool.order(cost, skip, now_ms);
    assert(i == slot(pool.cursor, off, n));
    assert(eligible(ups, i, cost, skip, now_ms));
    lemma_candidates(ups, pool.cursor, cost, skip, now_ms, n, i);
    let j = choose|j: int| 0 <= j < order.len() && order[j] == i;
    if choice is None {
        assert(!ups[order[j]].limiters.must_grant(class));
    }
}

/// While the rotor does not run over, any fit key with a token is enough, wherever it stands.
pub proof fn any_fit_key_with_a_token_is_enough(
    pool: Pool,
    after: Seq<Upstream>,
    class: MethodClass,
    cost: u64,
    skip: Seq<usize>,
    now_ms: u64,
    k: int,
    choice: Option<usize>,
    i: int,
)
    requires
        pool.selected(after, class, cost, skip, now_ms, k, choice),
        pool.cursor + pool.upstreams@.len() <= usize::MAX,
        0 <= i < pool.upstreams@.len(),
        !skip.contains(i as usize),
        pool.upstreams@[i].enabled,
        pool.upstreams@[i].credits_used + cost <= pool.upstreams@[i].credit_cap
            || pool.upstreams@[i].credit_cap == u64::MAX,
        pool.upstreams@[i].cooldown_until <= now_ms,
        pool.upstreams@[i].limiters.bucket(class) matches Some(bucket) ==> bucket_grants(bucket)
            < bucket_rate(bucket),
    ensures
        choice is Some,
{
    let n = pool.upstreams@.len() as int;
    every_key_comes_up(pool.cursor, i, n);
    let off = choose|off: int| 0 <= off < n && i == #[trigger] slot(pool.cursor, off, n);
    a_fit_key_with_a_token_is_found(
        pool,
        after,
        class,
        cost,
        skip,
        now_ms,
        k,
        choice,
        i,
        off,
    );
}

/// A selected key is one of the pool that was not to be skipped; it is enabled, the cost stays
/// within its cap, and its cooldown is over.
pub proof fn no_unfit_key_is_selected(
    pool: Pool,
    after: Seq<Upstream>,
    class: MethodClass,
    cost: u64,
    skip: Seq<usize>,
    now_ms: u64,
    k: int,
    i: usize,
)
    requires
        pool.selected(after, class, cost, skip, now_ms, k, Some(i)),
    ensures
        i < pool.upstreams@.len(),
        !skip.contains(i),
        pool.upstreams@[i as int].enabled,
        pool.upstreams@[i as int].credits_used + cost <= pool.upstreams@[i as int].credit_cap
            || pool.upstreams@[i as int].credit_cap == u64::MAX,
        pool.upstreams@[i as int].cooldown_until <= now_ms,
{
    let ups = pool.upstreams@;
    let order = pool.order(cost, skip, now_ms);
    assert(order.contains(i as int));
    lemma_candidates(ups, pool.cursor, cost, skip, now_ms, ups.len() as int, i as int);
}

/// Keys are taken in turn. A key that lies nearer behind the rotor than the selected one was
/// passed over for a reason: it is to be skipped, disabled, short of credits, cooling, or not
/// sure to have a token.
pub proof fn keys_are_taken_in_turn(
    pool: Pool,
    after: Seq<Upstream>,
    class: MethodClass,
    cost: u64,
    skip: Seq<usize>,
    now_ms: u64,
    k: int,
    i: usize,
    j: int,
)
    requires
        pool.selected(after, class, cost, skip, now_ms, k, Some(i)),
        pool.cursor + pool.upstreams@.len() <= usize::MAX,
        0 <= j < pool.upstreams@.len(),
        (j - pool.cursor) % (pool.upstreams@.len() as int) < (i - pool.cursor) % (
        pool.upstreams@.len() as int),
    ensures
        skip.contains(j as usize) || !pool.upstreams@[j].enabled || (pool.upstreams@[j].credits_used
            + cost > pool.upstreams@[j].credit_cap && pool.upstreams@[j].credit_cap < u64::MAX)
            || pool.upstreams@[j].cooldown_until > now_ms || (
        pool.upstreams@[j].limiters.bucket(class) matches Some(bucket) && bucket_grants(bucket)
            >= bucket_rate(bucket)),
{
    let ups = pool.upstreams@;
    let n = ups.len() as int;
    let turn = pool.cursor;
    let order = pool.order(cost, skip, now_ms);
    let e = (j - turn) % n;
    let f = (i - turn) % n;
    no_unfit_key_is_selected(pool, after, class, cost, skip, now_ms, k, i);
    lemma_offset(turn, j, n);
    lemma_offset(turn, i as int, n);
    assert(slot(turn, e, n) == j);
    assert(slot(turn, f, n) == i);
    if eligible(ups, j, cost, skip, now_ms) {
        let before = candidates(ups, turn, cost, skip, now_ms, e);
        let upto = candidates(ups, turn, cost, skip, now_ms, e + 1);
        assert(upto == before.push(j));
        let m = before.len() as int;
        lemma_candidates_prefix(ups, turn, cost, skip, now_ms, e + 1, n);
        assert(order[m] == upto[m]);
        if k <= m {
            assert(order[k] == upto[k]);
            assert(upto.contains(i as int));
            lemma_candidates(ups, turn, cost, skip, now_ms, e + 1, i as int);
            let g = choose|g: int| 0 <= g < e + 1 && i == #[trigger] slot(turn, g, n);
            no_key_comes_up_twice(turn, g, f, n);
        }
        assert(!ups[order[m]].limiters.must_grant(class));
    }
}

/// Keys come up in the order of the pool from the rotor on, one index after the other, and again
/// from the first behind the last; the count starts over behind the greatest number.
pub proof fn keys_come_up_in_the_order_of_the_pool(turn: usize, off: int, n: int)
    requires
        0 <= off < n <= usize::MAX,
    ensures
        0 <= slot(turn, off, n) < n,
        slot(turn, 0, n) == turn as int % n,
        turn + off != usize::MAX ==> slot(turn, off + 1, n) == (if slot(turn, off, n) + 1 == n {
            0
        } else {
            slot(turn, off, n) + 1
        }),
        turn + off == usize::MAX ==> slot(turn, off + 1, n) == 0,
{
    if turn + off < usize::MAX {
        lemma_mod_successor(turn + off, n);
    } else {
        lemma_mod_successor(turn + off - usize::MAX - 1, n);
        lemma_small_mod(0, n as nat);
    }
}

proof fn lemma_mod_successor(x: int, n: int)
    requires
        n > 0,
    ensures
        (x + 1) % n == (if x % n + 1 == n {
            0
        } else {
            x % n + 1
        }),
{
    lemma_add_mod_noop_right(1, x, n);
    assert((1 + x % n) % n == (1 + x) % n);
    let r = x % n;
    if r + 1 == n {
        assert((r + 1) % n == 0) by (nonlinear_arith)
            requires
                r + 1 == n,
                n > 0,
        ;
    } else {
        lemma_small_mod((r + 1) as nat, n as nat);
    }
}

/// Of a selected key, some place at which it comes up is the first good one: every key at an
/// earlier place was passed over for a reason. That holds wherever the rotor stands.
pub proof fn every_earlier_place_is_passed_over_for_a_reason(
    pool: Pool,
    after: Seq<Upstream>,
    class: MethodClass,
    cost: u64,
    skip: Seq<usize>,
    now_ms: u64,
    k: int,
    i: usize,
) -> (place: int)
    requires
        pool.selected(after, class, cost, skip, now_ms, k, Some(i)),
    ensures
        0 <= place < pool.upstreams@.len(),
        slot(pool.cursor, place, pool.upstreams@.len() as int) == i,
        forall|e: int|
            0 <= e < place ==> {
                let j = #[trigger] slot(pool.cursor, e, pool.upstreams@.len() as int);
                let up = pool.upstreams@[j];
                ||| skip.contains(j as usize)
                ||| !up.enabled
                ||| up.credits_used + cost > up.credit_cap && up.credit_cap < u64::MAX
                ||| up.cooldown_until > now_ms
                ||| up.limiters.bucket(class) matches Some(bucket) && bucket_grants(bucket)
                    >= bucket_rate(bucket)
            },
{
    let ups = pool.upstreams@;
    let n = ups.len() as int;
    let turn = pool.cursor;
    let place = lemma_place(ups, turn, cost, skip, now_ms, n, k);
    assert forall|e: int| 0 <= e < place implies {
        let j = #[trigger] slot(turn, e, n);
        let up = ups[j];
        ||| skip.contains(j as usize)
        ||| !up.enabled
        ||| up.credits_used + cost > up.credit_cap && up.credit_cap < u64::MAX
        ||| up.cooldown_until > now_ms
        ||| up.limiters.bucket(class) matches Some(bucket) && bucket_grants(bucket) >= bucket_rate(
            bucket,
        )
    } by {
        let j = slot(turn, e, n);
        if eligible(ups, j, cost, skip, now_ms) {
            let order = pool.order(cost, skip, now_ms);
            let before = candidates(ups, turn, cost, skip, now_ms, e);
            let m = before.len() as int;
            lemma_candidates_prefix(ups, turn, cost, skip, now_ms, e + 1, n);
            lemma_candidates_prefix(ups, turn, cost, skip, now_ms, e + 1, place);
            assert(candidates(ups, turn, cost, skip, now_ms, e + 1) == before.push(j));
            assert(order[m] == before.push(j)[m]);
            assert(!ups[order[m]].limiters.must_grant(class));
        }
    }
    place
}

proof fn lemma_place(
    ups: Seq<Upstream>,
    turn: usize,
    cost: u64,
    skip: Seq<usize>,
    now_ms: u64,
    upto: int,
    k: int,
) -> (place: int)
    requires
        0 <= upto,
        0 <= k < candidates(ups, turn, cost, skip, now_ms, upto).len(),
    ensures
        0 <= place < upto,
        slot(turn, place, ups.len() as int) == candidates(ups, turn, cost, skip, now_ms, upto)[k],
        candidates(ups, turn, cost, skip, now_ms, place).len() == k,
    decreases upto,
{
    let before = candidates(ups, turn, cost, skip, now_ms, upto - 1);
    if k < before.len() {
        lemma_place(ups, turn, cost, skip, now_ms, upto - 1, k)
    } else {
        upto - 1
    }
}

proof fn lemma_offset(turn: usize, i: int, n: int)
    requires
        0 <= i < n,
        round_is_even(turn, n),
    ensures
        0 <= (i - turn) % n < n,
        slot(turn, (i - turn) % n, n) == i,
{
    let off = (i - turn) % n;
    lemma_slot(turn, off, n);
    lemma_add_mod_noop_right(turn as int, i - turn, n);
    lemma_small_mod(i as nat, n as nat);
}

/// A selection takes one token from the selected key and none from any other, and changes
/// nothing else of any key.
pub proof fn a_selection_takes_one_token(
    pool: Pool,
    after: Seq<Upstream>,
    class: MethodClass,
    cost: u64,
    skip: Seq<usize>,
    now_ms: u64,
    k: int,
    choice: Option<usize>,
    x: int,
    other: MethodClass,
)
    requires
        pool.selected(after, class, cost, skip, now_ms, k, choice),
        0 <= x < pool.upstreams@.len(),
        other != class,
    ensures
        after.len() == pool.upstreams@.len(),
        after[x].name == pool.upstreams@[x].name,
        after[x].api_key == pool.upstreams@[x].api_key,
        after[x].credit_cap == pool.upstreams@[x].credit_cap,
        after[x].credits_used == pool.upstreams@[x].credits_used,
        after[x].epoch_yyyymm == pool.upstreams@[x].epoch_yyyymm,
        after[x].cooldown_until == pool.upstreams@[x].cooldown_until,
        after[x].backoff_step == pool.upstreams@[x].backoff_step,
        after[x].in_flight == pool.upstreams@[x].in_flight,
        after[x].enabled == pool.upstreams@[x].enabled,
        after[x].credits_total == pool.upstreams@[x].credits_total,
        after[x].requests_ok == pool.upstreams@[x].requests_ok,
        after[x].requests_rate_limited == pool.upstreams@[x].requests_rate_limited,
        after[x].requests_error == pool.upstreams@[x].requests_error,
        after[x].rate_limit_hits == pool.upstreams@[x].rate_limit_hits,
        after[x].day_start_total == pool.upstreams@[x].day_start_total,
        after[x].limiters.bucket(other) == pool.upstreams@[x].limiters.bucket(other),
        after[x].limiters.bucket(class) is Some == pool.upstreams@[x].limiters.bucket(class) is Some,
        pool.upstreams@[x].limiters.bucket(class) matches Some(before) ==> {
            let bucket = after[x].limiters.bucket(class)->0;
            &&& bucket_rate(bucket) == bucket_rate(before)
            &&& bucket_grants(bucket) == bucket_grants(before) + (if choice == Some(x as usize) {
                1int
            } else {
                0
            })
        },
{
    let ups = pool.upstreams@;
    let order = pool.order(cost, skip, now_ms);
    assert(pool.upstreams.len() == ups.len());
    assert(after[x].same_but_buckets(&ups[x]));
    if choice == Some(x as usize) {
        assert(order[k] == x);
    }
}

/// The rotor moves on by one with every selection from a pool that has keys, and starts over
/// behind its last value.
pub proof fn the_rotor_moves_on_by_one(pool: Pool)
    ensures
        pool.upstreams@.len() > 0 && pool.cursor < usize::MAX ==> pool.next_turn() == pool.cursor
            + 1,
        pool.upstreams@.len() > 0 && pool.cursor == usize::MAX ==> pool.next_turn() == 0,
        pool.upstreams@.len() == 0 ==> pool.next_turn() == pool.cursor,
{
}

/// There is capacity if and only if some enabled key has used fewer credits than its cap.
pub proof fn capacity_is_an_enabled_key_below_its_cap(ups: Seq<Upstream>)
    ensures
        has_capacity(ups) <==> exists|i: int|
            0 <= i < ups.len() && (#[trigger] ups[i]).enabled && ups[i].credits_used
                < ups[i].credit_cap,
{
    if has_capacity(ups) {
        let i = choose|i: int|
            0 <= i < ups.len() && (#[trigger] ups[i]).enabled && ups[i].remaining() > 0;
        assert(ups[i].credits_used < ups[i].credit_cap);
    }
    if exists|i: int|
        0 <= i < ups.len() && (#[trigger] ups[i]).enabled && ups[i].credits_used
            < ups[i].credit_cap {
        let i = choose|i: int|
            0 <= i < ups.len() && (#[trigger] ups[i]).enabled && ups[i].credits_used
                < ups[i].credit_cap;
        assert(ups[i].remaining() > 0);
    }
}

/// The time to come back is the whole seconds until the first of the keys whose cooldown ends
/// in the future leaves it, rounded up; there is none where no cooldown does.
pub proof fn the_time_to_come_back_is_the_first_end_of_a_cooldown(
    ups: Seq<Upstream>,
    now_ms: u64,
    i: int,
)
    requires
        0 <= i < ups.len(),
    ensures
        ups[i].cooldown_until > now_ms ==> soonest_secs(ups, now_ms) is Some,
        soonest_secs(ups, now_ms) matches Some(secs) ==> {
            &&& secs >= 1
            &&& ups[i].cooldown_until > now_ms ==> ups[i].cooldown_until > now_ms + (secs - 1)
                * 1000
            &&& exists|j: int|
                0 <= j < ups.len() && now_ms < (#[trigger] ups[j]).cooldown_until <= now_ms + secs
                    * 1000
        },
{
    retry_after_is_when_a_key_leaves_cooldown(ups, now_ms);
    assert(ups[i].cooling(now_ms) == (ups[i].cooldown_until > now_ms));
    if let Some(secs) = soonest_secs(ups, now_ms) {
        let j = choose|j: int|
            0 <= j < ups.len() && (#[trigger] ups[j]).cooling(now_ms) && ups[j].cooldown_until
                <= now_ms + secs * 1000;
        assert(now_ms < ups[j].cooldown_until);
    }
}

} // verus!
