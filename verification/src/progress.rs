//! Progress percentages and days remaining.

use vstd::arithmetic::div_mod::lemma_fundamental_div_mod_converse;
use vstd::prelude::*;

verus! {

/// Milliseconds in one day.
pub const MS_PER_DAY: i64 = 86_400_000;

/// The share of `target` that `current` covers, as a whole percentage:
/// the floor of `100 * current / target`, held within 0 and 100, and 0 when
/// the target is not positive.
pub open spec fn progress_percent(current: int, target: int) -> int {
    if target <= 0 {
        0
    } else if current <= 0 {
        0
    } else if current >= target {
        100
    } else {
        (100 * current) / target
    }
}

/// Whole days from `now_ms` until `deadline_ms`, rounded down; 0 once the
/// deadline has passed, and no more than an `i32` holds.
pub open spec fn days_between(now_ms: int, deadline_ms: int) -> int {
    let days = (deadline_ms - now_ms) / 86_400_000;
    if days < 0 {
        0
    } else if days > i32::MAX {
        i32::MAX as int
    } else {
        days
    }
}

/// A percentage always lies within 0 and 100.
pub proof fn lemma_progress_bounds(current: int, target: int)
    ensures
        0 <= progress_percent(current, target) <= 100,
        target <= 0 ==> progress_percent(current, target) == 0,
{
    if 0 < current < target {
        assert(0 <= (100 * current) / target < 100) by (nonlinear_arith)
            requires
                0 < current < target,
        ;
    }
}

/// Progress of a procurement in percent.
pub fn calculate_progress(current_amount: i64, target_amount: i64) -> (percent: i32)
    ensures
        percent == progress_percent(current_amount as int, target_amount as int),
        0 <= percent <= 100,
        target_amount <= 0 ==> percent == 0,
{
    if target_amount <= 0 || current_amount <= 0 {
        return 0;
    }
    if current_amount >= target_amount {
        return 100;
    }
    let scaled: i128 = 100 * (current_amount as i128);
    let quotient: i128 = scaled / (target_amount as i128);
    proof {
        lemma_progress_bounds(current_amount as int, target_amount as int);
    }
    quotient as i32
}

/// Progress in percent for sums too large to multiply by 100 in place.
pub fn progress_of_totals(current: i128, target: i128) -> (percent: i32)
    ensures
        percent == progress_percent(current as int, target as int),
        0 <= percent <= 100,
{
    if target <= 0 || current <= 0 {
        return 0;
    }
    if current >= target {
        return 100;
    }
    let c: u128 = current as u128;
    let t: u128 = target as u128;
    let mut percent: i32 = 0;
    let mut rest: u128 = 0;
    let mut k: i32 = 0;
    while k < 100
        invariant
            0 <= k <= 100,
            0 <= percent <= k,
            0 < c < t,
            t <= i128::MAX,
            rest < t,
            percent * t + rest == k * c,
        decreases 100 - k,
    {
        proof {
            assert((percent + 1) * t == percent * t + t) by (nonlinear_arith);
            assert((k + 1) * c == k * c + c) by (nonlinear_arith);
        }
        rest = rest + c;
        if rest >= t {
            rest = rest - t;
            percent = percent + 1;
        }
        k = k + 1;
    }
    proof {
        lemma_fundamental_div_mod_converse(100 * c as int, t as int, percent as int, rest as int);
        lemma_progress_bounds(current as int, target as int);
    }
    percent
}

/// Whole days left until a deadline, never negative.
pub fn days_until(deadline_ms: i64, now_ms: i64) -> (days: i32)
    ensures
        days == days_between(now_ms as int, deadline_ms as int),
        days >= 0,
{
    let diff: i128 = deadline_ms as i128 - now_ms as i128;
    if diff < 0 {
        assert(diff as int / 86_400_000 < 0);
        return 0;
    }
    let days: i128 = diff / (MS_PER_DAY as i128);
    if days > i32::MAX as i128 {
        i32::MAX
    } else {
        days as i32
    }
}

} // verus!
