//! Totals over a list of procurements.

use crate::format::{currency_text, format_currency_value};
use crate::procurements::{amount_of, Procurement};
use crate::progress::{progress_of_totals, progress_percent};
use crate::text::{str_eq, str_or_empty, text_or_empty};
use vstd::prelude::*;

verus! {

/// How many records have a status.
pub struct StatusCount {
    pub status: String,
    pub count: usize,
}

/// The totals of a list of procurements. Amounts are in hundredths of a
/// ruble.
pub struct ProcurementStats {
    pub total_count: usize,
    pub active_count: usize,
    pub total_amount: i128,
    pub total_target: i128,
    pub overall_progress: i32,
    /// The mean number of participants in tenths, rounded to the nearest.
    pub avg_participants_tenths: i64,
    /// The cities of the records, each once, in the order they first occur.
    pub cities: Vec<String>,
    /// The statuses of the records, each once, in the order they first
    /// occur, with the number of records that have it.
    pub by_status: Vec<StatusCount>,
    pub formatted_total_amount: String,
    pub formatted_total_target: String,
}

/// The texts held by a list of strings.
pub open spec fn strings_of(v: Seq<String>) -> Seq<Seq<char>> {
    Seq::new(v.len(), |i: int| v[i]@)
}

/// The status of a record; one without a status is `unknown`.
pub open spec fn status_of(p: Procurement) -> Seq<char> {
    match p.status {
        Some(s) => s@,
        None => "unknown"@,
    }
}

/// The sum of the collected amounts of the first `n` records.
pub open spec fn sum_current(procurements: Seq<Procurement>, n: int) -> int
    decreases n,
{
    if n <= 0 {
        0
    } else {
        sum_current(procurements, n - 1) + procurements[n - 1].current()
    }
}

/// The sum of the targets of the first `n` records.
pub open spec fn sum_target(procurements: Seq<Procurement>, n: int) -> int
    decreases n,
{
    if n <= 0 {
        0
    } else {
        sum_target(procurements, n - 1) + procurements[n - 1].target()
    }
}

/// The sum of the participants of the first `n` records.
pub open spec fn sum_participants(procurements: Seq<Procurement>, n: int) -> int
    decreases n,
{
    if n <= 0 {
        0
    } else {
        sum_participants(procurements, n - 1) + procurements[n - 1].participants()
    }
}

/// How many of the first `n` records have the status `status`.
pub open spec fn count_status(procurements: Seq<Procurement>, n: int, status: Seq<char>) -> nat
    decreases n,
{
    if n <= 0 {
        0
    } else {
        let one: nat = if status_of(procurements[n - 1]) == status {
            1
        } else {
            0
        };
        count_status(procurements, n - 1, status) + one
    }
}

/// The cities of the first `n` records that are not empty, each once, in
/// the order they first occur.
pub open spec fn cities_seen(procurements: Seq<Procurement>, n: int) -> Seq<Seq<char>>
    decreases n,
{
    if n <= 0 {
        Seq::empty()
    } else {
        let before = cities_seen(procurements, n - 1);
        let city = text_or_empty(procurements[n - 1].city);
        if city.len() > 0 && !before.contains(city) {
            before.push(city)
        } else {
            before
        }
    }
}

/// The statuses of the first `n` records, each once, in the order they
/// first occur.
pub open spec fn statuses_seen(procurements: Seq<Procurement>, n: int) -> Seq<Seq<char>>
    decreases n,
{
    if n <= 0 {
        Seq::empty()
    } else {
        let before = statuses_seen(procurements, n - 1);
        let status = status_of(procurements[n - 1]);
        if before.contains(status) {
            before
        } else {
            before.push(status)
        }
    }
}

/// `a / b` rounded to the nearest whole number, halves away from zero.
pub open spec fn rounded_quotient(a: int, b: int) -> int {
    if a >= 0 {
        (2 * a + b) / (2 * b)
    } else {
        -((2 * (-a) + b) / (2 * b))
    }
}

/// The mean of `count` numbers that sum to `total`, in tenths, rounded to
/// the nearest tenth; 0 for no numbers.
pub open spec fn average_tenths(total: int, count: int) -> int {
    if count <= 0 {
        0
    } else {
        rounded_quotient(10 * total, count)
    }
}

/// `stats` are the totals of `procurements`.
pub open spec fn is_summary_of(stats: ProcurementStats, procurements: Seq<Procurement>) -> bool {
    let n = procurements.len() as int;
    let statuses = statuses_seen(procurements, n);
    &&& stats.total_count == n
    &&& stats.active_count == count_status(procurements, n, "active"@)
    &&& stats.total_amount == sum_current(procurements, n)
    &&& stats.total_target == sum_target(procurements, n)
    &&& stats.overall_progress == progress_percent(
        sum_current(procurements, n),
        sum_target(procurements, n),
    )
    &&& stats.avg_participants_tenths == average_tenths(sum_participants(procurements, n), n)
    &&& strings_of(stats.cities@) == cities_seen(procurements, n)
    &&& stats.by_status.len() == statuses.len()
    &&& forall|k: int|
        0 <= k < statuses.len() ==> (#[trigger] stats.by_status[k]).status@ == statuses[k]
            && stats.by_status[k].count == count_status(procurements, n, statuses[k])
    &&& stats.formatted_total_amount@ == currency_text(sum_current(procurements, n))
    &&& stats.formatted_total_target@ == currency_text(sum_target(procurements, n))
}

/// A status that has not been seen is the status of no record.
pub proof fn lemma_unseen_status(procurements: Seq<Procurement>, n: int, status: Seq<char>)
    requires
        !statuses_seen(procurements, n).contains(status),
    ensures
        count_status(procurements, n, status) == 0,
    decreases n,
{
    if n > 0 {
        let before = statuses_seen(procurements, n - 1);
        let here = status_of(procurements[n - 1]);
        let now = statuses_seen(procurements, n);
        if before.contains(status) {
            let k = choose|k: int| 0 <= k < before.len() && before[k] == status;
            assert(now[k] == status);
        }
        if here == status {
            if before.contains(here) {
            } else {
                assert(now[before.len() as int] == status);
            }
        }
        lemma_unseen_status(procurements, n - 1, status);
    }
}

/// No status is counted for more records than there are.
pub proof fn lemma_count_bound(procurements: Seq<Procurement>, n: int, status: Seq<char>)
    requires
        0 <= n,
    ensures
        count_status(procurements, n, status) <= n,
    decreases n,
{
    if n > 0 {
        lemma_count_bound(procurements, n - 1, status);
    }
}

fn position_in(list: &Vec<String>, s: &str) -> (at: usize)
    ensures
        at <= list.len(),
        at < list.len() ==> list[at as int]@ == s@,
        forall|k: int| 0 <= k < at ==> (#[trigger] list[k])@ != s@,
        strings_of(list@).contains(s@) <==> at < list.len(),
{
    let mut at: usize = 0;
    while at < list.len()
        invariant
            at <= list.len(),
            forall|k: int| 0 <= k < at ==> (#[trigger] list[k])@ != s@,
        decreases list.len() - at,
    {
        if str_eq(list[at].as_str(), s) {
            assert(strings_of(list@)[at as int] == s@);
            return at;
        }
        at += 1;
    }
    assert forall|k: int| 0 <= k < strings_of(list@).len() implies strings_of(list@)[k] != s@ by {
        assert(list[k]@ != s@);
    }
    at
}

fn tenths_of_mean(total: i128, count: usize) -> (tenths: i64)
    requires
        -(count * 0x8000_0000) <= total <= count * 0x8000_0000,
    ensures
        tenths == average_tenths(total as int, count as int),
{
    if count == 0 {
        return 0;
    }
    let n: i128 = count as i128;
    let size: i128 = if total < 0 {
        -total
    } else {
        total
    };
    let doubled: i128 = 20 * size + n;
    let quotient: i128 = doubled / (2 * n);
    assert(0 <= quotient <= 10 * 0x8000_0000) by (nonlinear_arith)
        requires
            quotient == (20 * size + n) / (2 * n),
            n > 0,
            0 <= size <= n * 0x8000_0000,
    ;
    if total < 0 {
        (-quotient) as i64
    } else {
        quotient as i64
    }
}

/// Sums up a list of procurements: how many there are and how many are
/// active, the sums of the amounts and what they make in percent, the mean
/// number of participants, the cities and the statuses that occur. Absent
/// amounts and counts are taken as zero, absent statuses as `unknown`.
pub fn aggregate_procurement_stats(procurements: &Vec<Procurement>) -> (stats: ProcurementStats)
    ensures
        is_summary_of(stats, procurements@),
        stats.total_count == procurements.len(),
        stats.total_amount == sum_current(procurements@, procurements.len() as int),
{
    let mut active: usize = 0;
    let mut total_amount: i128 = 0;
    let mut total_target: i128 = 0;
    let mut participants: i128 = 0;
    let mut cities: Vec<String> = Vec::new();
    let mut statuses: Vec<String> = Vec::new();
    let mut counts: Vec<usize> = Vec::new();
    let mut i: usize = 0;
    assert(strings_of(cities@) =~= Seq::<Seq<char>>::empty());
    assert(strings_of(statuses@) =~= Seq::<Seq<char>>::empty());
    while i < procurements.len()
        invariant
            i <= procurements.len(),
            active == count_status(procurements@, i as int, "active"@),
            active <= i,
            total_amount == sum_current(procurements@, i as int),
            -(i * 0x8000_0000_0000_0000) <= total_amount <= i * 0x7fff_ffff_ffff_ffff,
            total_target == sum_target(procurements@, i as int),
            -(i * 0x8000_0000_0000_0000) <= total_target <= i * 0x7fff_ffff_ffff_ffff,
            participants == sum_participants(procurements@, i as int),
            -(i * 0x8000_0000) <= participants <= i * 0x8000_0000,
            strings_of(cities@) == cities_seen(procurements@, i as int),
            strings_of(statuses@) == statuses_seen(procurements@, i as int),
            counts.len() == statuses.len(),
            forall|k: int|
                0 <= k < counts.len() ==> #[trigger] counts[k] == count_status(
                    procurements@,
                    i as int,
                    statuses[k]@,
                ),
            forall|a: int, b: int|
                0 <= a < b < statuses.len() ==> (#[trigger] statuses[a])@ != (
                #[trigger] statuses[b])@,
        decreases procurements.len() - i,
    {
        let p = &procurements[i];
        let status: &str = match &p.status {
            Some(s) => s.as_str(),
            None => "unknown",
        };
        assert(status@ == status_of(*p));
        if str_eq(status, "active") {
            active = active + 1;
        }
        let at = position_in(&statuses, status);
        let ghost old_statuses = statuses@;
        let ghost old_counts = counts@;
        if at < statuses.len() {
            proof {
                lemma_count_bound(procurements@, i as int, status@);
            }
            let seen = counts[at];
            counts.set(at, seen + 1);
            assert forall|k: int| 0 <= k < counts.len() implies #[trigger] counts[k]
                == count_status(procurements@, i + 1, statuses[k]@) by {
                if k != at {
                    assert(old_counts[k] == counts[k]);
                    if k < at {
                        assert(statuses[k]@ != statuses[at as int]@);
                    } else {
                        assert(statuses[at as int]@ != statuses[k]@);
                    }
                }
            }
        } else {
            proof {
                lemma_unseen_status(procurements@, i as int, status@);
            }
            statuses.push(status.to_owned());
            counts.push(1);
            assert(strings_of(statuses@) =~= strings_of(old_statuses).push(status@));
            assert forall|k: int| 0 <= k < counts.len() implies #[trigger] counts[k]
                == count_status(procurements@, i + 1, statuses[k]@) by {
                if k < old_counts.len() {
                    assert(old_counts[k] == counts[k]);
                    assert(old_statuses[k]@ != status@);
                }
            }
            assert forall|a: int, b: int| 0 <= a < b < statuses.len() implies (
            #[trigger] statuses[a])@ != (#[trigger] statuses[b])@ by {
                if b < old_statuses.len() {
                    assert(old_statuses[a]@ != old_statuses[b]@);
                } else {
                    assert(old_statuses[a]@ != status@);
                }
            }
        }
        total_amount = total_amount + amount_of(&p.current_amount) as i128;
        total_target = total_target + amount_of(&p.target_amount) as i128;
        let joined: i32 = match p.participant_count {
            Some(n) => n,
            None => 0,
        };
        participants = participants + joined as i128;
        let city = str_or_empty(&p.city);
        if city.unicode_len() > 0 {
            let ghost old_cities = cities@;
            let seen_at = position_in(&cities, city);
            if seen_at >= cities.len() {
                cities.push(city.to_owned());
                assert(strings_of(cities@) =~= strings_of(old_cities).push(city@));
            }
        }
        i += 1;
    }
    let ghost n = procurements.len() as int;
    let mut by_status: Vec<StatusCount> = Vec::new();
    let mut k: usize = 0;
    while k < statuses.len()
        invariant
            k <= statuses.len(),
            by_status.len() == k,
            counts.len() == statuses.len(),
            forall|j: int|
                0 <= j < k ==> (#[trigger] by_status[j]).status@ == statuses[j]@
                    && by_status[j].count == counts[j],
        decreases statuses.len() - k,
    {
        by_status.push(StatusCount { status: statuses[k].clone(), count: counts[k] });
        k += 1;
    }
    let stats = ProcurementStats {
        total_count: procurements.len(),
        active_count: active,
        total_amount,
        total_target,
        overall_progress: progress_of_totals(total_amount, total_target),
        avg_participants_tenths: tenths_of_mean(participants, procurements.len()),
        cities,
        by_status,
        formatted_total_amount: format_currency_value(total_amount),
        formatted_total_target: format_currency_value(total_target),
    };
    assert forall|j: int| 0 <= j < statuses_seen(procurements@, n).len() implies (
    #[trigger] stats.by_status[j]).status@ == statuses_seen(procurements@, n)[j]
        && stats.by_status[j].count == count_status(
        procurements@,
        n,
        statuses_seen(procurements@, n)[j],
    ) by {
        assert(strings_of(statuses@)[j] == statuses[j]@);
        assert(counts[j] == count_status(procurements@, n, statuses[j]@));
    }
    stats
}

} // verus!
