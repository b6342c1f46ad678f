use procurement_utils::format::{
    format_currency, format_currency_value, format_relative_time, generate_platform_user_id,
    get_avatar_color, get_initials,
};
use procurement_utils::messages::format_ru_date;
use procurement_utils::progress::{calculate_progress, days_until, progress_of_totals};

#[test]
fn currency_with_thousands_and_hundredths() {
    assert_eq!(format_currency(123_456_750), "1 234 567,50 ₽");
}

#[test]
fn currency_of_zero() {
    assert_eq!(format_currency(0), "0 ₽");
}

#[test]
fn currency_negative_keeps_sign_next_to_digit() {
    assert_eq!(format_currency(-4_210), "-42,10 ₽");
}

#[test]
fn currency_groups_only_full_triples() {
    assert_eq!(format_currency(99_900), "999 ₽");
    assert_eq!(format_currency(100_000), "1 000 ₽");
    assert_eq!(format_currency(100_000_000), "1 000 000 ₽");
    assert_eq!(format_currency(-100_000), "-1 000 ₽");
    assert_eq!(format_currency(-12_345_600), "-123 456 ₽");
}

#[test]
fn currency_pads_hundredths_to_two_digits() {
    assert_eq!(format_currency(105), "1,05 ₽");
    assert_eq!(format_currency(7), "0,07 ₽");
    assert_eq!(format_currency(100_101), "1 001,01 ₽");
}

#[test]
fn currency_sign_belongs_to_whole_rubles() {
    assert_eq!(format_currency(-50), "0,50 ₽");
    assert_eq!(format_currency(-100), "-1 ₽");
}

#[test]
fn currency_extremes() {
    assert_eq!(format_currency(i64::MAX), "92 233 720 368 547 758,07 ₽");
    assert_eq!(format_currency(i64::MIN), "-92 233 720 368 547 758,08 ₽");
    assert_eq!(
        format_currency_value(i128::MIN),
        "-1 701 411 834 604 692 317 316 873 037 158 841 057,28 ₽"
    );
}

#[test]
fn progress_examples() {
    assert_eq!(calculate_progress(5_000, 20_000), 25);
    assert_eq!(calculate_progress(30_000, 20_000), 100);
    assert_eq!(calculate_progress(1_000, 0), 0);
}

#[test]
fn progress_is_exact_floor() {
    assert_eq!(calculate_progress(29, 100), 29);
    assert_eq!(calculate_progress(1, 3), 33);
    assert_eq!(calculate_progress(2, 3), 66);
    assert_eq!(calculate_progress(199, 200), 99);
    assert_eq!(calculate_progress(200, 200), 100);
}

#[test]
fn progress_stays_within_bounds() {
    let samples: Vec<i64> = vec![i64::MIN, -5, 0, 1, 7, 100, 12_345, i64::MAX];
    for c in samples.iter() {
        for t in samples.iter() {
            let p: i32 = calculate_progress(*c, *t);
            assert!((0..=100).contains(&p));
            if *t <= 0 {
                assert_eq!(p, 0);
            }
            assert_eq!(progress_of_totals(*c as i128, *t as i128), p);
        }
    }
}

#[test]
fn progress_of_huge_totals() {
    assert_eq!(progress_of_totals(i128::MAX - 1, i128::MAX), 99);
    assert_eq!(progress_of_totals(i128::MAX / 2, i128::MAX), 49);
    assert_eq!(progress_of_totals(i128::MAX, i128::MAX), 100);
    assert_eq!(progress_of_totals(15_000, 35_000), 42);
}

#[test]
fn days_until_counts_whole_days() {
    let now: i64 = 1_700_000_000_000;
    assert_eq!(days_until(now + 86_400_000, now), 1);
    assert_eq!(days_until(now + 86_399_999, now), 0);
    assert_eq!(days_until(now + 10 * 86_400_000 + 5, now), 10);
    assert_eq!(days_until(now, now), 0);
}

#[test]
fn days_until_is_never_negative() {
    let now: i64 = 1_700_000_000_000;
    assert_eq!(days_until(now - 1, now), 0);
    assert_eq!(days_until(now - 5 * 86_400_000, now), 0);
    assert_eq!(days_until(i64::MIN, i64::MAX), 0);
}

#[test]
fn days_until_stops_at_the_largest_count() {
    assert_eq!(days_until(i64::MAX, i64::MIN), i32::MAX);
    assert_eq!(days_until(i64::MAX, 0), i32::MAX);
}

#[test]
fn relative_time_just_now() {
    let now: i64 = 1_700_000_000_000;
    assert_eq!(format_relative_time(now, now), "только что");
    assert_eq!(format_relative_time(now - 59_999, now), "только что");
    assert_eq!(format_relative_time(now + 500_000, now), "только что");
}

#[test]
fn relative_time_minutes() {
    let now: i64 = 1_700_000_000_000;
    assert_eq!(format_relative_time(now - 60_000, now), "1 мин. назад");
    assert_eq!(format_relative_time(now - 3_599_000, now), "59 мин. назад");
}

#[test]
fn relative_time_hours() {
    let now: i64 = 1_700_000_000_000;
    assert_eq!(format_relative_time(now - 3_600_000, now), "1 ч. назад");
    assert_eq!(format_relative_time(now - 86_399_000, now), "23 ч. назад");
}

#[test]
fn relative_time_days() {
    let now: i64 = 1_700_000_000_000;
    assert_eq!(format_relative_time(now - 86_400_000, now), "вчера");
    assert_eq!(format_relative_time(now - 2 * 86_400_000 + 1, now), "вчера");
    assert_eq!(format_relative_time(now - 2 * 86_400_000, now), "2 дн. назад");
    assert_eq!(format_relative_time(now - 400 * 86_400_000, now), "400 дн. назад");
}

#[test]
fn relative_time_far_apart() {
    assert_eq!(format_relative_time(i64::MAX, i64::MIN), "только что");
    assert_eq!(format_relative_time(i64::MIN, i64::MAX), "213503982334 дн. назад");
}

#[test]
fn ru_date_in_current_year() {
    assert_eq!(format_ru_date(5, 0, 2026, 2026), "5 января");
    assert_eq!(format_ru_date(31, 11, 2026, 2026), "31 декабря");
}

#[test]
fn ru_date_in_other_year() {
    assert_eq!(format_ru_date(9, 4, 2024, 2026), "9 мая 2024");
    assert_eq!(format_ru_date(1, 8, 2027, 2026), "1 сентября 2027");
}

#[test]
fn ru_date_names_every_month() {
    let names: Vec<&str> = vec![
        "января", "февраля", "марта", "апреля", "мая", "июня", "июля", "августа", "сентября",
        "октября", "ноября", "декабря",
    ];
    for (m, name) in names.iter().enumerate() {
        assert_eq!(format_ru_date(2, m as u32, 2026, 2026), format!("2 {}", name));
    }
}

#[test]
fn ru_date_with_month_out_of_range() {
    assert_eq!(format_ru_date(7, 12, 2026, 2026), "7 ");
    assert_eq!(format_ru_date(7, 99, 2025, 2026), "7  2025");
}

#[test]
fn platform_user_id_shape() {
    assert_eq!(generate_platform_user_id(1_700_000_000_000, 123_456_789), "web_1700000000000_123456789");
    assert_eq!(generate_platform_user_id(0, 0), "web_0_0");
    assert_eq!(generate_platform_user_id(u64::MAX, 42), "web_18446744073709551615_42");
}

#[test]
fn avatar_color_of_known_names() {
    assert_eq!(get_avatar_color(""), "#e17076");
    assert_eq!(get_avatar_color("Bob"), "#65aadd");
    assert_eq!(get_avatar_color("Иван"), "#f5a623");
    assert_eq!(get_avatar_color("Александра Константиновна"), "#faa774");
}

#[test]
fn avatar_color_with_wrapped_hash() {
    assert_eq!(get_avatar_color("zzzzzzzzzz"), "#e17076");
    assert_eq!(get_avatar_color("Hello, world!"), "#7bc862");
    assert_eq!(get_avatar_color("Organizer"), "#faa774");
    assert_eq!(get_avatar_color("Мария Петрова"), "#65aadd");
}

#[test]
fn avatar_color_is_a_function_of_the_name() {
    assert_eq!(get_avatar_color("Мария Петрова"), get_avatar_color("Мария Петрова"));
}

#[test]
fn initials_of_two_names() {
    assert_eq!(get_initials("иван", "петров"), "ИП");
    assert_eq!(get_initials("Anna", "lee"), "AL");
}

#[test]
fn initials_of_one_name() {
    assert_eq!(get_initials("olga", ""), "O");
    assert_eq!(get_initials("", "смирнов"), "С");
}

#[test]
fn initials_of_no_name() {
    assert_eq!(get_initials("", ""), "?");
}

#[test]
fn initials_with_multi_character_uppercase() {
    assert_eq!(get_initials("ßen", "x"), "SSX");
}
