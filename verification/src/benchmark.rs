//! A synthetic workload that drives the four procurement operations.

use crate::procurements::{
    batch_process_procurements, is_projection_of, optional_text, ProcessedProcurement,
    Procurement,
};
use crate::search::{candidates, is_ranking_of, query_words, search_procurements, SearchHit};
use crate::sort::{is_sorted_ids, sort_procurements, SortKey};
use crate::stats::{aggregate_procurement_stats, is_summary_of, ProcurementStats};
use crate::text::{decimal, is_blank, is_whitespace, push_decimal, push_str, string_of};
use vstd::prelude::*;

verus! {

/// The deadline of every synthetic record, 2026-12-31T23:59:59Z, in
/// milliseconds since the Unix epoch.
pub const BENCHMARK_DEADLINE_MS: i64 = 1_798_761_599_000;

/// The query that the benchmark searches for.
pub open spec fn benchmark_query() -> Seq<char> {
    "тестовая Москва"@
}

/// The city of the synthetic record number `i`.
pub open spec fn benchmark_city(i: int) -> Seq<char> {
    if i % 3 == 0 {
        "Москва"@
    } else if i % 3 == 1 {
        "Санкт-Петербург"@
    } else {
        "Новосибирск"@
    }
}

/// The status of the synthetic record number `i`.
pub open spec fn benchmark_status(i: int) -> Seq<char> {
    if i % 4 == 0 {
        "active"@
    } else if i % 4 == 1 {
        "draft"@
    } else if i % 4 == 2 {
        "completed"@
    } else {
        "payment"@
    }
}

/// `p` is the synthetic record number `i`: its amounts grow with `i`, its
/// city, status, category and organizer go round in cycles of 3, 4, 5 and
/// 10, and it has between 1 and 50 participants.
pub open spec fn is_benchmark_record(p: Procurement, i: int) -> bool {
    &&& p.id == i
    &&& p.title@ == "Закупка тестовая #"@ + decimal(i)
    &&& optional_text(p.description) == Some(
        "Описание закупки #"@ + decimal(i) + " для бенчмарка"@,
    )
    &&& optional_text(p.city) == Some(benchmark_city(i))
    &&& optional_text(p.status) == Some(benchmark_status(i))
    &&& p.current_amount == Some((100 * (150 * i + 500)) as i64)
    &&& p.target_amount == Some((100 * (200 * i + 10_000)) as i64)
    &&& optional_text(p.deadline) == Some("2026-12-31T23:59:59Z"@)
    &&& p.participant_count == Some((i % 50 + 1) as i32)
    &&& optional_text(p.category) == Some("Категория "@ + decimal(i % 5))
    &&& optional_text(p.organizer_name) == Some("Организатор "@ + decimal(i % 10))
    &&& optional_text(p.created_at) == Some("2026-01-15T10:00:00Z"@)
}

/// `records` are the synthetic records number 0 to `count - 1`; none for a
/// count that is not positive.
pub open spec fn is_benchmark_load(records: Seq<Procurement>, count: int) -> bool {
    &&& records.len() == if count > 0 {
        count
    } else {
        0
    }
    &&& forall|i: int| 0 <= i < records.len() ==> is_benchmark_record(#[trigger] records[i], i)
}

/// What one run of the benchmark worked on and what came out.
pub struct BenchmarkRun {
    pub records: Vec<Procurement>,
    pub processed: Vec<ProcessedProcurement>,
    pub hits: Vec<SearchHit>,
    pub sorted_ids: Vec<i64>,
    pub stats: ProcurementStats,
}

fn numbered(before: &str, number: i32, after: &str) -> (text: String)
    ensures
        text@ == before@ + decimal(number as int) + after@,
{
    let mut out: Vec<char> = Vec::new();
    push_str(&mut out, before);
    push_decimal(&mut out, number as i128);
    push_str(&mut out, after);
    assert(out@ =~= before@ + decimal(number as int) + after@);
    string_of(&out)
}

fn benchmark_record(i: i32) -> (p: Procurement)
    requires
        0 <= i,
    ensures
        is_benchmark_record(p, i as int),
{
    let city = if i % 3 == 0 {
        "Москва"
    } else if i % 3 == 1 {
        "Санкт-Петербург"
    } else {
        "Новосибирск"
    };
    let status = if i % 4 == 0 {
        "active"
    } else if i % 4 == 1 {
        "draft"
    } else if i % 4 == 2 {
        "completed"
    } else {
        "payment"
    };
    let n: i64 = i as i64;
    proof {
        reveal_strlit("");
        assert(""@ =~= Seq::<char>::empty());
        assert("Категория "@ + decimal((i % 5) as int) + ""@ =~= "Категория "@ + decimal(
            (i % 5) as int,
        ));
        assert("Организатор "@ + decimal((i % 10) as int) + ""@ =~= "Организатор "@ + decimal(
            (i % 10) as int,
        ));
        assert("Закупка тестовая #"@ + decimal(i as int) + ""@ =~= "Закупка тестовая #"@
            + decimal(i as int));
    }
    Procurement {
        id: n,
        title: numbered("Закупка тестовая #", i, ""),
        description: Some(numbered("Описание закупки #", i, " для бенчмарка")),
        city: Some(city.to_owned()),
        status: Some(status.to_owned()),
        current_amount: Some(100 * (150 * n + 500)),
        target_amount: Some(100 * (200 * n + 10_000)),
        deadline: Some("2026-12-31T23:59:59Z".to_owned()),
        participant_count: Some(i % 50 + 1),
        category: Some(numbered("Категория ", i % 5, "")),
        organizer_name: Some(numbered("Организатор ", i % 10, "")),
        created_at: Some("2026-01-15T10:00:00Z".to_owned()),
    }
}

/// Makes the synthetic records number 0 to `count - 1`.
pub fn benchmark_records(count: i32) -> (records: Vec<Procurement>)
    ensures
        is_benchmark_load(records@, count as int),
{
    let mut records: Vec<Procurement> = Vec::new();
    let mut i: i32 = 0;
    while i < count
        invariant
            0 <= i,
            i <= count || i == 0,
            records.len() == i,
            forall|k: int| 0 <= k < records.len() ==> is_benchmark_record(#[trigger] records[k], k),
        decreases count - i,
    {
        records.push(benchmark_record(i));
        i += 1;
    }
    records
}

/// The benchmark query is not blank.
pub proof fn lemma_benchmark_query_not_blank()
    ensures
        !is_blank(benchmark_query()),
{
    reveal_strlit("тестовая Москва");
    assert(!is_whitespace(benchmark_query()[0]));
}

/// Makes `count` synthetic records and runs the four procurement operations
/// on them: the projection at `now_ms` with the deadline at
/// [`BENCHMARK_DEADLINE_MS`], a search for two words, a sort by amount from
/// high to low, and the totals.
pub fn benchmark_batch_processing(count: i32, now_ms: i64) -> (run: BenchmarkRun)
    ensures
        is_benchmark_load(run.records@, count as int),
        run.processed.len() == run.records.len(),
        forall|i: int|
            0 <= i < run.records.len() ==> is_projection_of(
                #[trigger] run.processed[i],
                run.records[i],
                Some(BENCHMARK_DEADLINE_MS),
                now_ms as int,
            ),
        is_ranking_of(
            run.hits@,
            candidates(
                run.records@,
                query_words(benchmark_query()),
                run.records.len() as int,
            ),
        ),
        is_sorted_ids(run.sorted_ids@, run.records@, SortKey::Amount, true),
        is_summary_of(run.stats, run.records@),
{
    let records = benchmark_records(count);
    let mut instants: Vec<Option<i64>> = Vec::new();
    let mut i: usize = 0;
    while i < records.len()
        invariant
            i <= records.len(),
            instants.len() == i,
            forall|k: int| 0 <= k < i ==> #[trigger] instants[k] == Some(BENCHMARK_DEADLINE_MS),
        decreases records.len() - i,
    {
        instants.push(Some(BENCHMARK_DEADLINE_MS));
        i += 1;
    }
    let processed = batch_process_procurements(&records, &instants, now_ms);
    proof {
        lemma_benchmark_query_not_blank();
    }
    let hits = search_procurements(&records, "тестовая Москва");
    let sorted_ids = sort_procurements(&records, "amount", "desc");
    proof {
        reveal_strlit("amount");
        reveal_strlit("title");
        assert("amount"@.len() == 6 && "title"@.len() == 5);
    }
    let stats = aggregate_procurement_stats(&records);
    BenchmarkRun { records, processed, hits, sorted_ids, stats }
}

} // verus!
