use lightnotes::clock::millis_or_zero;
use lightnotes::date_math::{ymdhm_to_date_ms, MS_PER_DAY, MS_PER_HOUR, MS_PER_MINUTE};
use lightnotes::labels::{
    choice_label, format_absolute, format_relative_time, notification_title, relative_time, remind_label,
    shown_title, AbsoluteTime, RelativeTime, ReminderLabel,
};
use lightnotes::note::Note;

#[test]
fn reminder_labels_pick_hours_days_or_weeks() {
    assert_eq!(remind_label(None), ReminderLabel::Unset);
    assert_eq!(remind_label(Some(0)), ReminderLabel::AtTheTime);
    assert_eq!(remind_label(Some(3)), ReminderLabel::HoursBefore(3));
    assert_eq!(remind_label(Some(24)), ReminderLabel::DaysBefore(1));
    assert_eq!(remind_label(Some(48)), ReminderLabel::DaysBefore(2));
    assert_eq!(remind_label(Some(168)), ReminderLabel::WeeksBefore(1));
    assert_eq!(remind_label(Some(336)), ReminderLabel::WeeksBefore(2));
    assert_eq!(remind_label(Some(30)), ReminderLabel::DaysBefore(1));
    assert_eq!(choice_label(Some(12)), ReminderLabel::HoursBefore(12));
    assert_eq!(choice_label(None), ReminderLabel::Unset);
}

#[test]
fn relative_times_step_from_minutes_to_weeks() {
    assert_eq!(relative_time(-5), RelativeTime::JustNow);
    assert_eq!(relative_time(59_999), RelativeTime::JustNow);
    assert_eq!(relative_time(MS_PER_MINUTE), RelativeTime::MinutesAgo(1));
    assert_eq!(relative_time(59 * MS_PER_MINUTE), RelativeTime::MinutesAgo(59));
    assert_eq!(relative_time(MS_PER_HOUR), RelativeTime::HoursAgo(1));
    assert_eq!(relative_time(23 * MS_PER_HOUR), RelativeTime::HoursAgo(23));
    assert_eq!(relative_time(MS_PER_DAY), RelativeTime::Yesterday);
    assert_eq!(relative_time(6 * MS_PER_DAY), RelativeTime::DaysAgo(6));
    assert_eq!(relative_time(7 * MS_PER_DAY), RelativeTime::WeeksAgo(1));
    assert_eq!(relative_time(20 * MS_PER_DAY), RelativeTime::WeeksAgo(2));
}

#[test]
fn an_update_in_the_future_reads_as_just_now() {
    assert_eq!(format_relative_time(i64::MAX), RelativeTime::JustNow);
    assert!(matches!(format_relative_time(0), RelativeTime::WeeksAgo(_)));
}

#[test]
fn absolute_times_use_a_twelve_hour_clock() {
    let midnight = ymdhm_to_date_ms(2026, 1, 3, 0, 7);
    assert_eq!(format_absolute(midnight), AbsoluteTime { day: 3, month: 1, hour12: 12, minute: 7, pm: false });
    let noon = ymdhm_to_date_ms(2026, 1, 3, 12, 0);
    assert_eq!(format_absolute(noon), AbsoluteTime { day: 3, month: 1, hour12: 12, minute: 0, pm: true });
    let evening = ymdhm_to_date_ms(2026, 12, 31, 21, 45);
    assert_eq!(format_absolute(evening), AbsoluteTime { day: 31, month: 12, hour12: 9, minute: 45, pm: true });
}

#[test]
fn notification_titles_are_trimmed_and_blank_ones_untitled() {
    assert_eq!(shown_title("  Dentist \n"), Some("Dentist".to_string()));
    assert_eq!(shown_title(" \t "), None);
    let note = Note {
        user_id: "u".into(),
        id: "n".into(),
        title: String::new(),
        content: String::new(),
        folder_id: None,
        tag_ids: Vec::new(),
        pinned: false,
        starred: false,
        updated_at_ms: 0,
        order: 0,
        date_ms: 0,
        remind_before_hours: None,
    };
    assert_eq!(notification_title(&note), None);
}

#[test]
fn a_clock_reading_becomes_milliseconds_or_zero() {
    assert_eq!(millis_or_zero(Some(1_700_000_000_000)), 1_700_000_000_000);
    assert_eq!(millis_or_zero(None), 0);
    assert_eq!(millis_or_zero(Some(1u128 << 64)), 0);
}
