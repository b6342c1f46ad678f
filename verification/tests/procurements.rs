use procurement_utils::benchmark::{benchmark_batch_processing, benchmark_records};
use procurement_utils::procurements::{batch_process_procurements, Procurement};
use procurement_utils::search::search_procurements;
use procurement_utils::sort::{parse_sort_key, sort_order, sort_procurements, SortKey};
use procurement_utils::stats::aggregate_procurement_stats;

fn record(id: i64, title: &str) -> Procurement {
    Procurement {
        id,
        title: title.to_string(),
        description: None,
        city: None,
        status: None,
        current_amount: None,
        target_amount: None,
        deadline: None,
        participant_count: None,
        category: None,
        organizer_name: None,
        created_at: None,
    }
}

fn in_city(id: i64, title: &str, city: &str) -> Procurement {
    let mut p: Procurement = record(id, title);
    p.city = Some(city.to_string());
    p
}

fn with_amounts(id: i64, status: &str, current: i64, target: i64) -> Procurement {
    let mut p: Procurement = record(id, "t");
    p.status = Some(status.to_string());
    p.current_amount = Some(current);
    p.target_amount = Some(target);
    p
}

fn hits_of(procurements: &Vec<Procurement>, query: &str) -> Vec<(i64, u128)> {
    search_procurements(procurements, query).iter().map(|h| (h.id, h.score)).collect()
}

#[test]
fn search_finds_city_match() {
    let list: Vec<Procurement> = vec![in_city(1, "A", "Москва"), in_city(2, "B", "Казань")];
    assert_eq!(hits_of(&list, "Москва"), vec![(1, 5)]);
}

#[test]
fn search_ranks_title_prefix_above_city() {
    let list: Vec<Procurement> = vec![
        in_city(1, "A", "Москва"),
        in_city(2, "B", "Казань"),
        record(3, "Москва строительство"),
    ];
    assert_eq!(hits_of(&list, "Москва"), vec![(3, 15), (1, 5)]);
}

#[test]
fn search_blank_query_finds_nothing() {
    let list: Vec<Procurement> = vec![in_city(1, "A", "Москва")];
    assert!(search_procurements(&list, "").is_empty());
    assert!(search_procurements(&list, " \t\n\u{a0}").is_empty());
}

#[test]
fn search_ignores_letter_case() {
    let list: Vec<Procurement> = vec![in_city(1, "Мёд Алтайский", "КАЗАНЬ")];
    assert_eq!(hits_of(&list, "мёд"), vec![(1, 15)]);
    assert_eq!(hits_of(&list, "АЛТАЙСКИЙ"), vec![(1, 10)]);
    assert_eq!(hits_of(&list, "казань"), vec![(1, 5)]);
}

#[test]
fn search_adds_up_all_fields_and_words() {
    let mut p: Procurement = in_city(7, "чай", "чай-город");
    p.organizer_name = Some("Чайная".to_string());
    p.description = Some("Зелёный чай".to_string());
    let list: Vec<Procurement> = vec![p];
    assert_eq!(hits_of(&list, "чай"), vec![(7, 25)]);
    assert_eq!(hits_of(&list, "чай зелёный"), vec![(7, 27)]);
    assert_eq!(hits_of(&list, "  чай   чай "), vec![(7, 50)]);
}

#[test]
fn search_keeps_input_order_among_equal_scores() {
    let list: Vec<Procurement> = vec![
        in_city(5, "x", "Омск"),
        record(6, "Омск"),
        in_city(4, "y", "Омск"),
        in_city(9, "z", "Томск"),
    ];
    assert_eq!(hits_of(&list, "омск"), vec![(6, 15), (5, 5), (4, 5), (9, 5)]);
}

#[test]
fn search_word_that_matches_nothing_changes_no_score() {
    let list: Vec<Procurement> = vec![
        in_city(1, "Кофе", "Москва"),
        in_city(2, "Чай", "Москва"),
        record(3, "Москва кофе"),
    ];
    assert_eq!(hits_of(&list, "москва"), hits_of(&list, "москва qqq"));
    assert_eq!(hits_of(&list, "москва"), vec![(3, 15), (1, 5), (2, 5)]);
    assert_eq!(hits_of(&list, "москва кофе"), vec![(3, 25), (1, 20), (2, 5)]);
}

fn sample_instants() -> Vec<Option<i64>> {
    vec![Some(1_772_323_200_000), Some(1_768_435_200_000), None, None]
}

fn sample() -> Vec<Procurement> {
    let mut a: Procurement = with_amounts(10, "active", 300, 1_000);
    a.title = "банан".to_string();
    a.participant_count = Some(3);
    a.deadline = Some("2026-03-01T00:00:00Z".to_string());
    a.created_at = Some("2025-12-01T00:00:00Z".to_string());
    let mut b: Procurement = with_amounts(20, "draft", 100, 200);
    b.title = "Арбуз".to_string();
    b.participant_count = Some(7);
    b.deadline = Some("2026-01-15T00:00:00Z".to_string());
    b.created_at = Some("2025-11-01T00:00:00Z".to_string());
    let mut c: Procurement = record(30, "вишня");
    c.current_amount = Some(200);
    let mut d: Procurement = with_amounts(40, "active", 900, 0);
    d.title = "Груша".to_string();
    d.participant_count = Some(1);
    d.created_at = Some("2026-01-01T00:00:00Z".to_string());
    vec![a, b, c, d]
}

#[test]
fn sort_by_title_ignores_case() {
    assert_eq!(sort_procurements(&sample(), "title", "asc"), vec![20, 10, 30, 40]);
    assert_eq!(sort_procurements(&sample(), "title", "desc"), vec![40, 30, 10, 20]);
}

#[test]
fn sort_by_amount() {
    assert_eq!(sort_procurements(&sample(), "amount", "asc"), vec![20, 30, 10, 40]);
    assert_eq!(sort_procurements(&sample(), "amount", "desc"), vec![40, 10, 30, 20]);
}

#[test]
fn sort_by_progress_takes_missing_target_as_one_ruble() {
    // 10: 0.3, 20: 0.5, 30: 200 / 100 = 2, 40: target not positive, so 0
    assert_eq!(sort_procurements(&sample(), "progress", "asc"), vec![40, 10, 20, 30]);
    assert_eq!(sort_procurements(&sample(), "progress", "desc"), vec![30, 20, 10, 40]);
}

#[test]
fn sort_by_deadline_puts_missing_first() {
    assert_eq!(sort_procurements(&sample(), "deadline", "asc"), vec![30, 40, 20, 10]);
    assert_eq!(sort_procurements(&sample(), "deadline", "desc"), vec![10, 20, 30, 40]);
}

#[test]
fn sort_by_participants() {
    assert_eq!(sort_procurements(&sample(), "participants", "asc"), vec![30, 40, 10, 20]);
    assert_eq!(sort_procurements(&sample(), "participants", "desc"), vec![20, 10, 40, 30]);
}

#[test]
fn sort_by_created() {
    assert_eq!(sort_procurements(&sample(), "created", "asc"), vec![30, 20, 10, 40]);
    assert_eq!(sort_procurements(&sample(), "created", "desc"), vec![40, 10, 20, 30]);
}

#[test]
fn sort_by_unknown_key_keeps_order() {
    assert_eq!(sort_procurements(&sample(), "colour", "asc"), vec![10, 20, 30, 40]);
    assert_eq!(sort_procurements(&sample(), "colour", "desc"), vec![10, 20, 30, 40]);
    assert_eq!(sort_procurements(&sample(), "", "whatever"), vec![10, 20, 30, 40]);
}

#[test]
fn sort_order_other_than_desc_is_ascending() {
    assert_eq!(sort_procurements(&sample(), "amount", "DESC"), vec![20, 30, 10, 40]);
    assert_eq!(sort_procurements(&sample(), "amount", ""), vec![20, 30, 10, 40]);
}

#[test]
fn sort_is_stable_in_both_directions() {
    let list: Vec<Procurement> = vec![
        with_amounts(1, "a", 5, 10),
        with_amounts(2, "a", 3, 10),
        with_amounts(3, "a", 5, 10),
        with_amounts(4, "a", 3, 10),
        with_amounts(5, "a", 4, 10),
    ];
    assert_eq!(sort_procurements(&list, "amount", "asc"), vec![2, 4, 5, 1, 3]);
    assert_eq!(sort_procurements(&list, "amount", "desc"), vec![1, 3, 5, 2, 4]);
}

#[test]
fn sort_descending_reverses_ascending_without_ties() {
    let keys: Vec<&str> = vec!["title", "amount", "progress"];
    for key in keys.iter() {
        let list: Vec<Procurement> = vec![
            with_amounts(1, "a", 500, 1_000),
            with_amounts(2, "a", 300, 400),
            with_amounts(3, "a", 100, 1_000),
            with_amounts(4, "a", 900, 1_000),
        ];
        let mut list: Vec<Procurement> = list;
        list[0].title = "d".to_string();
        list[1].title = "B".to_string();
        list[2].title = "a".to_string();
        list[3].title = "C".to_string();
        let up: Vec<i64> = sort_procurements(&list, key, "asc");
        let mut down: Vec<i64> = sort_procurements(&list, key, "desc");
        down.reverse();
        assert_eq!(up, down);
    }
}

#[test]
fn sort_of_empty_list() {
    let list: Vec<Procurement> = Vec::new();
    assert!(sort_procurements(&list, "title", "asc").is_empty());
}

#[test]
fn sort_key_names() {
    assert_eq!(parse_sort_key("title"), SortKey::Title);
    assert_eq!(parse_sort_key("amount"), SortKey::Amount);
    assert_eq!(parse_sort_key("progress"), SortKey::Progress);
    assert_eq!(parse_sort_key("deadline"), SortKey::Deadline);
    assert_eq!(parse_sort_key("participants"), SortKey::Participants);
    assert_eq!(parse_sort_key("created"), SortKey::Created);
    assert_eq!(parse_sort_key("Title"), SortKey::Unordered);
    assert_eq!(sort_order(&sample(), SortKey::Amount, true), vec![3, 0, 2, 1]);
}

#[test]
fn stats_of_three_records() {
    let list: Vec<Procurement> = vec![
        with_amounts(1, "active", 10_000, 20_000),
        with_amounts(2, "active", 0, 10_000),
        with_amounts(3, "draft", 5_000, 5_000),
    ];
    let stats = aggregate_procurement_stats(&list);
    assert_eq!(stats.total_count, 3);
    assert_eq!(stats.active_count, 2);
    assert_eq!(stats.total_amount, 15_000);
    assert_eq!(stats.total_target, 35_000);
    assert_eq!(stats.overall_progress, 42);
    let by_status: Vec<(String, usize)> =
        stats.by_status.iter().map(|s| (s.status.clone(), s.count)).collect();
    assert_eq!(by_status, vec![("active".to_string(), 2), ("draft".to_string(), 1)]);
    assert_eq!(stats.formatted_total_amount, "150 ₽");
    assert_eq!(stats.formatted_total_target, "350 ₽");
}

#[test]
fn stats_of_empty_list() {
    let stats = aggregate_procurement_stats(&Vec::new());
    assert_eq!(stats.total_count, 0);
    assert_eq!(stats.active_count, 0);
    assert_eq!(stats.total_amount, 0);
    assert_eq!(stats.total_target, 0);
    assert_eq!(stats.overall_progress, 0);
    assert_eq!(stats.avg_participants_tenths, 0);
    assert!(stats.cities.is_empty());
    assert!(stats.by_status.is_empty());
    assert_eq!(stats.formatted_total_amount, "0 ₽");
    assert_eq!(stats.formatted_total_target, "0 ₽");
}

#[test]
fn stats_total_is_sum_of_amounts() {
    let amounts: Vec<i64> = vec![i64::MAX, i64::MAX, 7, -3, i64::MIN];
    let list: Vec<Procurement> =
        amounts.iter().enumerate().map(|(i, a)| with_amounts(i as i64, "s", *a, *a)).collect();
    let stats = aggregate_procurement_stats(&list);
    let sum: i128 = amounts.iter().map(|a| *a as i128).sum();
    assert_eq!(stats.total_count, list.len());
    assert_eq!(stats.total_amount, sum);
    assert_eq!(stats.total_target, sum);
    assert_eq!(stats.overall_progress, 100);
}

#[test]
fn stats_cities_once_in_first_seen_order() {
    let mut list: Vec<Procurement> = vec![
        in_city(1, "a", "Омск"),
        in_city(2, "b", ""),
        in_city(3, "c", "Казань"),
        record(4, "d"),
        in_city(5, "e", "Омск"),
        in_city(6, "f", "омск"),
    ];
    list[2].status = Some("".to_string());
    let stats = aggregate_procurement_stats(&list);
    assert_eq!(stats.cities, vec!["Омск", "Казань", "омск"]);
    let by_status: Vec<(String, usize)> =
        stats.by_status.iter().map(|s| (s.status.clone(), s.count)).collect();
    assert_eq!(by_status, vec![("unknown".to_string(), 5), ("".to_string(), 1)]);
    assert_eq!(stats.active_count, 0);
}

#[test]
fn stats_mean_participants_rounds_to_tenths() {
    let counts: Vec<Option<i32>> = vec![Some(1), Some(2), None];
    let list: Vec<Procurement> = counts
        .iter()
        .map(|c| {
            let mut p: Procurement = record(1, "t");
            p.participant_count = *c;
            p
        })
        .collect();
    assert_eq!(aggregate_procurement_stats(&list).avg_participants_tenths, 10);
    let mut two: Vec<Procurement> = vec![record(1, "a"), record(2, "b")];
    two[0].participant_count = Some(5);
    assert_eq!(aggregate_procurement_stats(&two).avg_participants_tenths, 25);
    let mut three: Vec<Procurement> = vec![record(1, "a"), record(2, "b"), record(3, "c")];
    three[0].participant_count = Some(2);
    assert_eq!(aggregate_procurement_stats(&three).avg_participants_tenths, 7);
    three[0].participant_count = Some(1);
    assert_eq!(aggregate_procurement_stats(&three).avg_participants_tenths, 3);
    let mut eight: Vec<Procurement> = (0..8).map(|i| record(i, "x")).collect();
    eight[0].participant_count = Some(2);
    assert_eq!(aggregate_procurement_stats(&eight).avg_participants_tenths, 3);
    eight[0].participant_count = Some(-2);
    assert_eq!(aggregate_procurement_stats(&eight).avg_participants_tenths, -3);
}

#[test]
fn batch_projection_of_full_record() {
    let now: i64 = 1_767_225_600_000;
    let list: Vec<Procurement> = sample();
    let shown = batch_process_procurements(&list, &sample_instants(), now);
    assert_eq!(shown.len(), 4);
    assert_eq!(shown[0].id, 10);
    assert_eq!(shown[0].title, "банан");
    assert_eq!(shown[0].status.as_deref(), Some("active"));
    assert_eq!(shown[0].current_amount, 300);
    assert_eq!(shown[0].target_amount, 1_000);
    assert_eq!(shown[0].progress, 30);
    assert_eq!(shown[0].formatted_current, "3 ₽");
    assert_eq!(shown[0].formatted_target, "10 ₽");
    assert_eq!(shown[0].participant_count, Some(3));
    assert_eq!(shown[0].deadline.as_deref(), Some("2026-03-01T00:00:00Z"));
    assert_eq!(shown[0].created_at.as_deref(), Some("2025-12-01T00:00:00Z"));
    assert_eq!(shown[0].days_left, Some(59));
    assert_eq!(shown[1].days_left, Some(14));
    assert_eq!(shown[1].progress, 50);
}

#[test]
fn batch_projection_defaults() {
    let list: Vec<Procurement> = sample();
    let shown = batch_process_procurements(&list, &sample_instants(), 0);
    assert_eq!(shown[2].id, 30);
    assert_eq!(shown[2].current_amount, 200);
    assert_eq!(shown[2].target_amount, 0);
    assert_eq!(shown[2].progress, 0);
    assert_eq!(shown[2].formatted_current, "2 ₽");
    assert_eq!(shown[2].formatted_target, "0 ₽");
    assert_eq!(shown[2].days_left, None);
    assert_eq!(shown[2].deadline, None);
    assert_eq!(shown[2].city, None);
    assert_eq!(shown[3].progress, 0);
}

#[test]
fn batch_projection_past_deadline_has_no_days_left() {
    let list: Vec<Procurement> = sample();
    let shown = batch_process_procurements(&list, &sample_instants(), 1_800_000_000_000);
    assert_eq!(shown[0].days_left, Some(0));
    assert_eq!(shown[1].days_left, Some(0));
}

#[test]
fn batch_projection_with_unreadable_deadline() {
    let list: Vec<Procurement> = sample();
    let none_read: Vec<Option<i64>> = vec![None, None, Some(5), Some(i64::MAX)];
    let shown = batch_process_procurements(&list, &none_read, 0);
    assert_eq!(shown[0].days_left, Some(0));
    assert_eq!(shown[1].days_left, Some(0));
    assert_eq!(shown[2].days_left, None);
    assert_eq!(shown[3].days_left, None);
    let short: Vec<Option<i64>> = vec![Some(3 * 86_400_000)];
    let shown = batch_process_procurements(&list, &short, 0);
    assert_eq!(shown[0].days_left, Some(3));
    assert_eq!(shown[1].days_left, Some(0));
    assert_eq!(shown[2].days_left, None);
}

#[test]
fn batch_projection_of_empty_list() {
    assert!(batch_process_procurements(&Vec::new(), &Vec::new(), 5).is_empty());
    assert!(batch_process_procurements(&Vec::new(), &sample_instants(), 5).is_empty());
}

#[test]
fn benchmark_records_follow_their_number() {
    let records: Vec<Procurement> = benchmark_records(7);
    assert_eq!(records.len(), 7);
    let p: &Procurement = &records[6];
    assert_eq!(p.id, 6);
    assert_eq!(p.title, "Закупка тестовая #6");
    assert_eq!(p.description.as_deref(), Some("Описание закупки #6 для бенчмарка"));
    assert_eq!(p.city.as_deref(), Some("Москва"));
    assert_eq!(p.status.as_deref(), Some("completed"));
    assert_eq!(p.current_amount, Some(140_000));
    assert_eq!(p.target_amount, Some(1_120_000));
    assert_eq!(p.participant_count, Some(7));
    assert_eq!(p.category.as_deref(), Some("Категория 1"));
    assert_eq!(p.organizer_name.as_deref(), Some("Организатор 6"));
    assert_eq!(p.created_at.as_deref(), Some("2026-01-15T10:00:00Z"));
    assert_eq!(p.deadline.as_deref(), Some("2026-12-31T23:59:59Z"));
    assert_eq!(records[1].city.as_deref(), Some("Санкт-Петербург"));
    assert_eq!(records[2].city.as_deref(), Some("Новосибирск"));
    assert_eq!(records[0].status.as_deref(), Some("active"));
    assert_eq!(records[1].status.as_deref(), Some("draft"));
    assert_eq!(records[3].status.as_deref(), Some("payment"));
}

#[test]
fn benchmark_without_records() {
    assert!(benchmark_records(0).is_empty());
    assert!(benchmark_records(-3).is_empty());
    let run = benchmark_batch_processing(0, 0);
    assert!(run.processed.is_empty() && run.hits.is_empty() && run.sorted_ids.is_empty());
    assert_eq!(run.stats.total_count, 0);
}

#[test]
fn benchmark_run_of_six() {
    let run = benchmark_batch_processing(6, 1_767_225_600_000);
    assert_eq!(run.records.len(), 6);
    assert_eq!(run.processed.len(), 6);
    assert_eq!(run.processed[0].progress, 5);
    assert_eq!(run.processed[0].formatted_current, "500 ₽");
    assert_eq!(run.processed[0].days_left, Some(364));
    let hits: Vec<(i64, u128)> = run.hits.iter().map(|h| (h.id, h.score)).collect();
    assert_eq!(hits, vec![(0, 15), (3, 15), (1, 10), (2, 10), (4, 10), (5, 10)]);
    assert_eq!(run.sorted_ids, vec![5, 4, 3, 2, 1, 0]);
    assert_eq!(run.stats.total_count, 6);
    assert_eq!(run.stats.active_count, 2);
    assert_eq!(run.stats.total_amount, 525_000);
    assert_eq!(run.stats.cities, vec!["Москва", "Санкт-Петербург", "Новосибирск"]);
    assert_eq!(run.stats.avg_participants_tenths, 35);
}

#[test]
fn ids_as_json_array() {
    assert_eq!(procurement_utils::json::encode_ids(&vec![3, -1, 20]), "[3,-1,20]");
    assert_eq!(procurement_utils::json::encode_ids(&vec![0]), "[0]");
    assert_eq!(procurement_utils::json::encode_ids(&vec![i64::MIN, i64::MAX]), "[-9223372036854775808,9223372036854775807]");
    assert_eq!(procurement_utils::json::encode_ids(&Vec::new()), "[]");
    assert_eq!(procurement_utils::json::encode_ids(&sort_procurements(&sample(), "amount", "desc")), "[40,10,30,20]");
}
