use lightnotes::date_math::{
    add_days, civil_from_days, date_and_time_strings_to_ms, date_ms_to_date_string, date_ms_to_time_string,
    date_ms_to_ymdhm, day_key, day_key_to_ms, days_from_civil, days_in_month, local_offset_ms, local_offset_ready,
    offset_ms_from_timezone_offset_minutes, set_local_offset_ms, utc_ms_to_local_ms, weekday_index, ymdhm_to_date_ms,
    LocalOffset, MS_PER_DAY, MS_PER_HOUR, MS_PER_MINUTE,
};

#[test]
fn civil_round_trip_across_boundaries() {
    let cases = [
        (1970, 1, 1),
        (2000, 2, 29),
        (2024, 2, 29),
        (2023, 12, 31),
        (2024, 1, 1),
        (1969, 12, 31),
        (1900, 1, 1),
        (2100, 3, 1),
    ];
    for (y, m, d) in cases {
        let days = days_from_civil(y, m, d);
        assert_eq!(civil_from_days(days), (y, m, d));
    }
}

#[test]
fn epoch_fixed_point() {
    assert_eq!(days_from_civil(1970, 1, 1), 0);
}

#[test]
fn weekday_matches_known_thursday() {
    assert_eq!(weekday_index(days_from_civil(1970, 1, 1)), 3);
    assert_eq!(weekday_index(days_from_civil(2024, 1, 1)), 0);
}

#[test]
fn ymdhm_round_trip() {
    let ms = ymdhm_to_date_ms(2026, 7, 29, 14, 35);
    assert_eq!(date_ms_to_ymdhm(ms), (2026, 7, 29, 14, 35));
}

#[test]
fn date_time_string_round_trip() {
    let ms = date_and_time_strings_to_ms("2026-07-29", "09:05").unwrap();
    assert_eq!(date_ms_to_date_string(ms), "2026-07-29");
    assert_eq!(date_ms_to_time_string(ms), "09:05");
}

#[test]
fn timezone_offset_minutes_invert_to_signed_milliseconds() {
    assert_eq!(offset_ms_from_timezone_offset_minutes(300), -5 * MS_PER_HOUR);
    assert_eq!(offset_ms_from_timezone_offset_minutes(-60), MS_PER_HOUR);
    assert_eq!(offset_ms_from_timezone_offset_minutes(0), 0);
    assert_eq!(offset_ms_from_timezone_offset_minutes(-330), 5 * MS_PER_HOUR + 30 * MS_PER_MINUTE);
}

#[test]
fn utc_converts_to_the_matching_local_wall_clock() {
    let mut offset = LocalOffset::new();
    set_local_offset_ms(&mut offset, offset_ms_from_timezone_offset_minutes(300));
    assert_eq!(local_offset_ms(&offset), -5 * MS_PER_HOUR);

    let utc_ms = ymdhm_to_date_ms(2026, 8, 8, 14, 0);
    assert_eq!(date_ms_to_ymdhm(utc_ms_to_local_ms(&offset, utc_ms)), (2026, 8, 8, 9, 0));
}

#[test]
fn the_offset_is_not_ready_until_it_is_recorded() {
    let mut offset = LocalOffset::new();
    assert!(!local_offset_ready(&offset));
    assert_eq!(local_offset_ms(&offset), 0);
    set_local_offset_ms(&mut offset, 0);
    assert!(local_offset_ready(&offset));
}

#[test]
fn days_before_the_epoch_are_negative() {
    assert_eq!(days_from_civil(1969, 12, 31), -1);
    assert_eq!(days_from_civil(2000, 3, 1), 11017);
    assert_eq!(civil_from_days(-1), (1969, 12, 31));
    assert_eq!(civil_from_days(-719468), (0, 3, 1));
}

#[test]
fn month_lengths_follow_the_leap_year_rule() {
    assert_eq!(days_in_month(2024, 2), 29);
    assert_eq!(days_in_month(2023, 2), 28);
    assert_eq!(days_in_month(1900, 2), 28);
    assert_eq!(days_in_month(2000, 2), 29);
    assert_eq!(days_in_month(2023, 12), 31);
    assert_eq!(days_in_month(2023, 4), 30);
}

#[test]
fn day_keys_floor_towards_the_past() {
    assert_eq!(day_key(0), 0);
    assert_eq!(day_key(MS_PER_DAY - 1), 0);
    assert_eq!(day_key(-1), -1);
    assert_eq!(day_key_to_ms(-1), -MS_PER_DAY);
    assert_eq!(date_ms_to_ymdhm(-1), (1969, 12, 31, 23, 59));
}

#[test]
fn adding_days_keeps_the_time_of_day() {
    let ms = ymdhm_to_date_ms(2024, 2, 28, 9, 30);
    assert_eq!(date_ms_to_ymdhm(add_days(ms, 1)), (2024, 2, 29, 9, 30));
    assert_eq!(date_ms_to_ymdhm(add_days(ms, 2)), (2024, 3, 1, 9, 30));
    assert_eq!(date_ms_to_ymdhm(add_days(ms, -59)), (2023, 12, 31, 9, 30));
}

#[test]
fn malformed_date_or_time_text_does_not_parse() {
    assert_eq!(date_and_time_strings_to_ms("2026-07", "09:05"), None);
    assert_eq!(date_and_time_strings_to_ms("2026-07-29", "0905"), None);
    assert_eq!(date_and_time_strings_to_ms("2026-aa-29", "09:05"), None);
    assert_eq!(date_and_time_strings_to_ms("-5-01-01", "09:05"), None);
    assert_eq!(date_and_time_strings_to_ms("2026-07-29", "09:05:00"), None);
    assert_eq!(date_and_time_strings_to_ms("2026-+7-29", "09:05"), Some(ymdhm_to_date_ms(2026, 7, 29, 9, 5)));
    assert_eq!(date_and_time_strings_to_ms("2026-07-29", " 09:05"), None);
}

#[test]
fn negative_and_wide_years_render_with_padding() {
    assert_eq!(date_ms_to_date_string(ymdhm_to_date_ms(-1, 1, 2, 0, 0)), "-001-01-02");
    assert_eq!(date_ms_to_date_string(ymdhm_to_date_ms(12345, 11, 5, 0, 0)), "12345-11-05");
    assert_eq!(date_ms_to_time_string(ymdhm_to_date_ms(2026, 1, 1, 0, 7)), "00:07");
}

#[test]
fn texts_round_trip_from_the_start_of_year_zero() {
    let start = lightnotes::date_math::ymdhm_to_date_ms(0, 1, 1, 0, 0);
    for ms in [start, start + 61_001, 0, 1_785_312_345_678, lightnotes::date_math::ymdhm_to_date_ms(9999, 12, 31, 23, 59) + 59_999] {
        let date = lightnotes::date_math::date_ms_to_date_string(ms);
        let time = lightnotes::date_math::date_ms_to_time_string(ms);
        assert_eq!(lightnotes::date_math::date_and_time_strings_to_ms(&date, &time), Some(ms - ms.rem_euclid(60_000)));
    }
}
