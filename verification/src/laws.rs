//! The general guarantees of the decision arithmetic, stated and proved over
//! the spec-level model in `rate_limiter`.

use vstd::prelude::*;

use crate::rate_limiter::{
    emission_interval_ns, increment_ns, params_accepted, params_representable, raised_tat,
    raised_tat_fits, spec_allowed, spec_next_tat, spec_remaining, spec_reset_after,
    spec_retry_after, time_used_ns, tolerance_ns, NANOS_PER_SEC,
};
use vstd::arithmetic::div_mod::{
    lemma_div_by_multiple, lemma_div_is_ordered, lemma_div_non_zero, lemma_div_nonincreasing,
    lemma_div_pos_is_pos,
};
use vstd::arithmetic::mul::{
    lemma_mul_inequality, lemma_mul_is_distributive_add_other_way, lemma_mul_is_distributive_sub,
    lemma_mul_strictly_positive,
};

verus! {

/// Law: every decision respects the type's invariants. An allowed call costs
/// at most the full capacity, `remaining` stays within `[0, limit]` and
/// accounts for the quantity just spent, the stored TAT never moves backward
/// and stays representable, the reported durations are non-negative, and
/// `retry_after` is zero exactly on allowed calls.
pub proof fn lemma_decision_invariants(tat: u64, now: u64, burst: i64, count: i64, period: i64, quantity: i64)
    requires
        params_representable(burst, count, period, quantity),
        params_accepted(count, period, quantity),
    ensures
        spec_allowed(tat, now, burst, count, period, quantity) ==> quantity as int <= count as int
            + burst as int,
        spec_allowed(tat, now, burst, count, period, quantity) ==> 0 <= spec_remaining(
            tat,
            now,
            burst,
            count,
            period,
            quantity,
        ) && spec_remaining(tat, now, burst, count, period, quantity) + quantity as int
            <= count as int + burst as int,
        tat as int <= spec_next_tat(tat, now, burst, count, period, quantity) <= u64::MAX as int,
        spec_reset_after(tat, now, burst, count, period, quantity) >= 0,
        spec_retry_after(tat, now, burst, count, period, quantity) >= 0,
        spec_allowed(tat, now, burst, count, period, quantity) <==> spec_retry_after(
            tat,
            now,
            burst,
            count,
            period,
            quantity,
        ) == 0,
{
    let pns = period as int * NANOS_PER_SEC as int;
    let ei = emission_interval_ns(count, period);
    let tol = tolerance_ns(burst, count, period);
    let inc = increment_ns(count, period, quantity);
    let lim = count as int + burst as int;
    let q = quantity as int;
    lemma_div_non_zero(pns, count as int);
    lemma_mul_strictly_positive(ei, q);
    if spec_allowed(tat, now, burst, count, period, quantity) {
        let used = time_used_ns(tat, now, count, period, quantity);
        assert(used >= inc);
        if q > lim {
            lemma_mul_inequality(lim + 1, q, ei);
            lemma_mul_is_distributive_add_other_way(ei, lim, 1);
            assert(false);
        }
        lemma_div_pos_is_pos(tol - used, ei);
        lemma_mul_is_distributive_sub(ei, lim, q);
        lemma_div_is_ordered(tol - used, ei * (lim - q), ei);
        lemma_div_by_multiple(lim - q, ei);
        assert(ei * (lim - q) == (lim - q) * ei);
    }
}

/// Law: a call whose quantity exceeds `count + burst` is denied whatever the
/// stored state and the clock say, and the reported wait is never zero.
pub proof fn lemma_oversized_denied(tat: u64, now: u64, burst: i64, count: i64, period: i64, quantity: i64)
    requires
        params_representable(burst, count, period, quantity),
        params_accepted(count, period, quantity),
        quantity as int > count as int + burst as int,
    ensures
        !spec_allowed(tat, now, burst, count, period, quantity),
        spec_retry_after(tat, now, burst, count, period, quantity) >= emission_interval_ns(
            count,
            period,
        ),
        emission_interval_ns(count, period) >= 1,
{
    let pns = period as int * NANOS_PER_SEC as int;
    let ei = emission_interval_ns(count, period);
    let tol = tolerance_ns(burst, count, period);
    let inc = increment_ns(count, period, quantity);
    let lim = count as int + burst as int;
    lemma_div_non_zero(pns, count as int);
    lemma_mul_inequality(lim + 1, quantity as int, ei);
    lemma_mul_is_distributive_add_other_way(ei, lim, 1);
    assert(inc >= tol + ei);
    if raised_tat_fits(tat, now, count, period, quantity) {
        assert(time_used_ns(tat, now, count, period, quantity) >= inc);
    } else {
        lemma_div_nonincreasing(pns, count as int);
    }
}

/// Law: a key with no backlog (its TAT at or before `now`, as for a fresh,
/// deleted, or cleared key) has the full capacity available: any quantity up
/// to `count + burst` is allowed and leaves exactly the rest remaining.
pub proof fn lemma_fresh_key_allowed(tat: u64, now: u64, burst: i64, count: i64, period: i64, quantity: i64)
    requires
        params_representable(burst, count, period, quantity),
        params_accepted(count, period, quantity),
        tat <= now,
        quantity as int <= count as int + burst as int,
        now as int + increment_ns(count, period, quantity) <= u64::MAX as int,
    ensures
        spec_allowed(tat, now, burst, count, period, quantity),
        spec_remaining(tat, now, burst, count, period, quantity) == count as int + burst as int
            - quantity as int,
{
    let pns = period as int * NANOS_PER_SEC as int;
    let ei = emission_interval_ns(count, period);
    let tol = tolerance_ns(burst, count, period);
    let inc = increment_ns(count, period, quantity);
    let lim = count as int + burst as int;
    let q = quantity as int;
    lemma_div_non_zero(pns, count as int);
    lemma_mul_inequality(q, lim, ei);
    assert(q * ei == ei * q);
    assert(time_used_ns(tat, now, count, period, quantity) == inc);
    lemma_mul_is_distributive_sub(ei, lim, q);
    lemma_div_by_multiple(lim - q, ei);
    assert(ei * (lim - q) == (lim - q) * ei);
}

/// Law: with a fixed key, fixed parameters, and no elapsed time, unit-cost
/// calls are allowed while capacity lasts and denied afterwards; each allowed
/// call lowers `remaining` by exactly one and raises the TAT by exactly one
/// emission interval. `k` counts the units already consumed since `now`.
pub proof fn lemma_remaining_decreases(tat: u64, now: u64, burst: i64, count: i64, period: i64, k: int)
    requires
        params_representable(burst, count, period, 1),
        params_accepted(count, period, 1),
        0 <= k,
        crate::rate_limiter::effective_tat(tat, now) == now as int + k * emission_interval_ns(
            count,
            period,
        ),
        now as int + (k + 1) * emission_interval_ns(count, period) <= u64::MAX as int,
    ensures
        k < count as int + burst as int ==> spec_allowed(tat, now, burst, count, period, 1)
            && spec_remaining(tat, now, burst, count, period, 1) == count as int + burst as int - k
            - 1 && spec_next_tat(tat, now, burst, count, period, 1) == now as int + (k + 1)
            * emission_interval_ns(count, period),
        k >= count as int + burst as int ==> !spec_allowed(tat, now, burst, count, period, 1),
{
    let pns = period as int * NANOS_PER_SEC as int;
    let ei = emission_interval_ns(count, period);
    let tol = tolerance_ns(burst, count, period);
    let lim = count as int + burst as int;
    lemma_div_non_zero(pns, count as int);
    assert(increment_ns(count, period, 1) == ei);
    lemma_mul_is_distributive_add_other_way(ei, k, 1);
    assert((k + 1) * ei == k * ei + ei);
    assert(raised_tat(tat, now, count, period, 1) == now as int + (k + 1) * ei);
    assert(time_used_ns(tat, now, count, period, 1) == (k + 1) * ei);
    if k < lim {
        lemma_mul_inequality(k + 1, lim, ei);
        assert((k + 1) * ei <= lim * ei);
        assert(spec_allowed(tat, now, burst, count, period, 1));
        lemma_mul_is_distributive_sub(ei, lim, k + 1);
        lemma_div_by_multiple(lim - (k + 1), ei);
        assert(ei * (lim - (k + 1)) == (lim - (k + 1)) * ei);
        assert(spec_remaining(tat, now, burst, count, period, 1) == lim - k - 1);
    } else {
        lemma_mul_inequality(lim + 1, k + 1, ei);
        lemma_mul_is_distributive_add_other_way(ei, lim, 1);
        assert((k + 1) * ei > tol);
    }
}

/// Law: after an allowed sequence exhausts capacity (the TAT has run a full
/// tolerance ahead of the clock), waiting one emission interval makes a
/// unit-cost call admissible again, with nothing to spare.
pub proof fn lemma_refill_after_wait(tat: u64, now: u64, now2: u64, burst: i64, count: i64, period: i64)
    requires
        params_representable(burst, count, period, 1),
        params_accepted(count, period, 1),
        tat as int == now as int + tolerance_ns(burst, count, period),
        now2 as int == now as int + emission_interval_ns(count, period),
        tat as int + emission_interval_ns(count, period) <= u64::MAX as int,
    ensures
        spec_allowed(tat, now2, burst, count, period, 1),
        spec_remaining(tat, now2, burst, count, period, 1) == 0,
{
    let pns = period as int * NANOS_PER_SEC as int;
    let ei = emission_interval_ns(count, period);
    let tol = tolerance_ns(burst, count, period);
    let lim = count as int + burst as int;
    lemma_div_non_zero(pns, count as int);
    lemma_mul_inequality(1, lim, ei);
    assert(1 * ei == ei) by {
        vstd::arithmetic::mul::lemma_mul_basics(ei);
    }
    assert(tat >= now2);
    assert(increment_ns(count, period, 1) == ei);
    assert(time_used_ns(tat, now2, count, period, 1) == tol);
    assert(spec_allowed(tat, now2, burst, count, period, 1));
    assert((0int) / ei == 0) by {
        vstd::arithmetic::div_mod::lemma_div_of0(ei);
    }
}

/// Law: a denied call is free. It leaves the stored TAT untouched, so any
/// later call finds exactly the state it would have found had the denied
/// call never been made.
pub proof fn lemma_denied_is_free(tat: u64, now: u64, now2: u64, burst: i64, count: i64, period: i64, quantity: i64, quantity2: i64)
    requires
        !spec_allowed(tat, now, burst, count, period, quantity),
    ensures
        spec_next_tat(tat, now, burst, count, period, quantity) == tat as int,
        spec_allowed(
            spec_next_tat(tat, now, burst, count, period, quantity) as u64,
            now2,
            burst,
            count,
            period,
            quantity2,
        ) == spec_allowed(tat, now2, burst, count, period, quantity2),
        spec_remaining(
            spec_next_tat(tat, now, burst, count, period, quantity) as u64,
            now2,
            burst,
            count,
            period,
            quantity2,
        ) == spec_remaining(tat, now2, burst, count, period, quantity2),
        spec_retry_after(
            spec_next_tat(tat, now, burst, count, period, quantity) as u64,
            now2,
            burst,
            count,
            period,
            quantity2,
        ) == spec_retry_after(tat, now2, burst, count, period, quantity2),
{
}

/// Law: deleting a key twice is the same as deleting it once; deletion of an
/// absent key changes nothing.
pub proof fn lemma_delete_idempotent(m: Map<Seq<u8>, u64>, key: Seq<u8>)
    ensures
        m.remove(key).remove(key) == m.remove(key),
        !m.contains_key(key) ==> m.remove(key) == m,
{
    assert(m.remove(key).remove(key) =~= m.remove(key));
    if !m.contains_key(key) {
        assert(m.remove(key) =~= m);
    }
}

} // verus!
