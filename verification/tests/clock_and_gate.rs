use lightnotes::delivery::notification_parts;
use lightnotes::delivery::deliver_due;
use lightnotes::notes::NotesStore;
use lightnotes::reminders::can_check_due;
use lightnotes::clock::{local_ms_at, local_now_ms};
use lightnotes::date_math::{
    checked_date_and_time_strings_to_ms, date_and_time_strings_to_ms, set_local_offset_ms, ymdhm_to_date_ms,
    LocalOffset, MS_PER_HOUR,
};
use lightnotes::delivery::fresh_reminders;
use lightnotes::labels::{relative_time_at, RelativeTime};
use lightnotes::reminders::ScheduledReminder;
use lightnotes::root_shell::{shell_gate, AuthStatus, RootShellState, ShellStep};
use lightnotes::scheduler::desktop::DeliveryRecord;
use lightnotes::scheduler::Permission;
use lightnotes::text::trim;

#[test]
fn the_local_clock_adds_the_offset() {
    let mut offset = LocalOffset::new();
    set_local_offset_ms(&mut offset, -5 * MS_PER_HOUR);
    assert_eq!(local_ms_at(&offset, 10 * MS_PER_HOUR), 5 * MS_PER_HOUR);
    set_local_offset_ms(&mut offset, 1);
    assert_eq!(local_ms_at(&offset, i64::MAX), i64::MIN);
    let before = local_ms_at(&LocalOffset::new(), lightnotes::clock::now_ms());
    let now = local_now_ms(&LocalOffset::new());
    assert!(now >= before);
}

#[test]
fn how_long_ago_is_measured_from_the_given_now() {
    assert_eq!(relative_time_at(10 * MS_PER_HOUR, 7 * MS_PER_HOUR), RelativeTime::HoursAgo(3));
    assert_eq!(relative_time_at(0, 90_000), RelativeTime::JustNow);
    assert_eq!(relative_time_at(i64::MAX, i64::MIN), relative_time_at(i64::MAX, -1));
    assert_eq!(relative_time_at(i64::MIN, i64::MAX), RelativeTime::JustNow);
}

#[test]
fn date_texts_that_do_not_fit_give_nothing() {
    assert_eq!(
        checked_date_and_time_strings_to_ms("2026-07-29", "09:05"),
        date_and_time_strings_to_ms("2026-07-29", "09:05")
    );
    assert_eq!(checked_date_and_time_strings_to_ms("2026-07-29", "09:05"), Some(ymdhm_to_date_ms(2026, 7, 29, 9, 5)));
    assert_eq!(checked_date_and_time_strings_to_ms("2147483647-12-31", "23:59"), None);
    assert_eq!(checked_date_and_time_strings_to_ms("2026-07", "09:05"), None);
}

#[test]
fn a_refused_delivery_keeps_the_permission_denied() {
    let mut record = DeliveryRecord::new();
    assert_eq!(record.permission(), Permission::Granted);
    record.note_delivery(true);
    assert_eq!(record.permission(), Permission::Granted);
    record.note_delivery(false);
    record.note_delivery(true);
    assert_eq!(record.permission(), Permission::Denied);
}

fn due(note_id: &str, fire_at_local_ms: i64) -> ScheduledReminder {
    ScheduledReminder {
        note_id: note_id.into(),
        fire_at_local_ms,
        payload_hash: String::new(),
        title: String::new(),
        body: String::new(),
    }
}

#[test]
fn no_reminder_is_delivered_twice_over_many_checks() {
    let mut delivered = Vec::new();
    let mut all = Vec::new();
    for check in 0..5 {
        let list = vec![due("note-1", 100), due("note-2", 100 + check % 2), due("note-1", 100)];
        for reminder in fresh_reminders(&mut delivered, list) {
            all.push((reminder.note_id, reminder.fire_at_local_ms));
        }
    }
    assert_eq!(all, vec![("note-1".to_string(), 100), ("note-2".to_string(), 100), ("note-2".to_string(), 101)]);
    assert_eq!(delivered, all);
}

#[test]
fn the_shell_gates_and_redirects() {
    assert_eq!(shell_gate(AuthStatus::SignedOut, false, false), (RootShellState { gated: true }, ShellStep::RememberAndGoToLogin));
    assert_eq!(shell_gate(AuthStatus::Pending, false, true), (RootShellState { gated: true }, ShellStep::Stay));
    assert_eq!(shell_gate(AuthStatus::SignedIn, true, true), (RootShellState { gated: false }, ShellStep::GoToRemembered));
    assert_eq!(shell_gate(AuthStatus::SignedIn, true, false), (RootShellState { gated: false }, ShellStep::GoToNotes));
    assert_eq!(shell_gate(AuthStatus::SignedOut, true, false), (RootShellState { gated: false }, ShellStep::Stay));
}

#[test]
fn white_space_is_what_the_standard_library_trims() {
    for code in (0u32..0x3100).chain([0xfeff, 0x180e]) {
        if let Some(c) = char::from_u32(code) {
            let text = format!("{c}a{c}");
            assert_eq!(trim(&text), text.trim(), "U+{code:04X}");
        }
    }
}

#[test]
fn a_check_delivers_the_users_due_reminders_once() {

    let mut offset = LocalOffset::new();
    let mut store = NotesStore::empty();
    store.set_user("user-1".into());
    let date = ymdhm_to_date_ms(2026, 8, 8, 9, 0);
    let due_id = store.create_diary_note(date, None, Vec::new());
    store.set_note_title(&due_id, "  Dentist ".into());
    store.set_note_remind_before(&due_id, Some(1));
    let later = store.create_diary_note(date + 10 * MS_PER_HOUR, None, Vec::new());
    store.set_note_remind_before(&later, Some(0));
    let now = date - MS_PER_HOUR + 60_000;

    let mut delivered = Vec::new();
    assert!(deliver_due(&mut delivered, &store, &offset, false, now).is_empty());
    set_local_offset_ms(&mut offset, 0);
    assert!(deliver_due(&mut delivered, &store, &offset, true, now).is_empty());
    let first = deliver_due(&mut delivered, &store, &offset, false, now);
    assert_eq!(first.len(), 1);
    assert_eq!(first[0].note_id, due_id);
    assert_eq!(first[0].fire_at_local_ms, date - MS_PER_HOUR);
    assert_eq!(first[0].title, "  Dentist ");
    assert!(deliver_due(&mut delivered, &store, &offset, false, now + 60_000).is_empty());
    assert!(deliver_due(&mut delivered, &store, &offset, false, now + 2 * MS_PER_HOUR).is_empty());

    let note = store.note(&due_id).unwrap();
    assert!(can_check_due(&note, now, 0));
    assert!(!can_check_due(&note, 0, i64::MIN));
}

#[test]
fn a_notification_shows_the_trimmed_title_and_the_fire_time() {
    let mut reminder = due("note-1", ymdhm_to_date_ms(2026, 8, 8, 15, 5));
    reminder.title = "  Dentist ".into();
    let (title, when) = notification_parts(&reminder);
    assert_eq!(title, Some("Dentist".to_string()));
    assert_eq!((when.day, when.month, when.hour12, when.minute, when.pm), (8, 8, 3, 5, true));
    reminder.title = "   ".into();
    assert_eq!(notification_parts(&reminder).0, None);
}
