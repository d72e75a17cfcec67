use lightnotes::reminder_runs::{has_work, should_deliver_due, ReminderRuns, RunStep};
use lightnotes::delivery::fresh_reminders;
use lightnotes::local_store::{
    apply_plan, note_from_row, notes_from_rows, EntityKind, NoteRow, StoreWrite,
    apply_outcome, record_of, records_change, records_of, schedule_write, ApplyOutcome, ReminderSchedule, ScheduleWrite,
};
use lightnotes::reminders::{diff, ScheduleAction, ScheduledRecord, ScheduledReminder};
use lightnotes::scheduler::macos::{permission_from_request, permission_of, trigger_for, AuthorizationStatus};
use lightnotes::scheduler::{desktop, macos, unsupported, Permission, SchedulerSupport};
use lightnotes::date_math::ymdhm_to_date_ms;

fn reminder(note_id: &str, fire_at_local_ms: i64) -> ScheduledReminder {
    ScheduledReminder {
        note_id: note_id.into(),
        fire_at_local_ms,
        payload_hash: "hash".into(),
        title: "title".into(),
        body: "body".into(),
    }
}

fn schedule(note_id: &str, fire_at_ms: i64, payload_hash: &str) -> ReminderSchedule {
    ReminderSchedule { note_id: note_id.into(), fire_at_ms, payload_hash: payload_hash.into(), scheduled_at_ms: 1_000 }
}

#[test]
fn applying_a_change_follows_the_store_rules() {
    assert_eq!(apply_outcome(true, true, true), ApplyOutcome::AlreadyApplied);
    assert_eq!(apply_outcome(false, true, false), ApplyOutcome::Applied);
    assert_eq!(apply_outcome(false, false, true), ApplyOutcome::Applied);
    assert_eq!(apply_outcome(false, false, false), ApplyOutcome::Skipped);
    assert!(records_change(ApplyOutcome::Skipped));
    assert!(!records_change(ApplyOutcome::AlreadyApplied));
}

#[test]
fn stored_schedules_become_records() {
    let record = record_of(schedule("note-1", 5_000, "hash-a"));
    assert_eq!(record, ScheduledRecord { note_id: "note-1".into(), fire_at_local_ms: 5_000, payload_hash: "hash-a".into() });
    let records = records_of(vec![schedule("note-1", 5_000, "hash-a"), schedule("note-2", 9_000, "hash-b")]);
    assert_eq!(records.len(), 2);
    assert_eq!(records[1].note_id, "note-2");
    assert_eq!(records[1].fire_at_local_ms, 9_000);
}

#[test]
fn carried_out_actions_are_written_back_and_then_converge() {
    let desired = vec![reminder("note-1", 5_000)];
    let actions = diff(&desired, &[]);
    assert_eq!(actions.len(), 1);
    let mut stored = Vec::new();
    for action in actions {
        match schedule_write(action, 42) {
            ScheduleWrite::Upsert(written) => {
                assert_eq!(written.scheduled_at_ms, 42);
                stored.push(written);
            }
            ScheduleWrite::Delete { .. } => panic!("nothing was removed"),
        }
    }
    assert!(diff(&desired, &records_of(stored)).is_empty());
    match schedule_write(ScheduleAction::Remove { note_id: "note-9".into() }, 0) {
        ScheduleWrite::Delete { note_id } => assert_eq!(note_id, "note-9"),
        ScheduleWrite::Upsert(_) => panic!("a removal is not an upsert"),
    }
}

#[test]
fn each_due_reminder_is_delivered_once() {
    let mut delivered = Vec::new();
    let due = vec![reminder("note-1", 5_000), reminder("note-1", 5_000), reminder("note-2", 5_000)];
    let fresh = fresh_reminders(&mut delivered, due.clone());
    assert_eq!(fresh.len(), 2);
    assert_eq!(fresh[0].note_id, "note-1");
    assert_eq!(fresh[1].note_id, "note-2");
    assert_eq!(delivered.len(), 2);
    assert!(fresh_reminders(&mut delivered, due).is_empty());
    let moved = fresh_reminders(&mut delivered, vec![reminder("note-1", 6_000)]);
    assert_eq!(moved.len(), 1);
}

#[test]
fn scheduler_backends_report_what_they_support() {
    assert_eq!(SchedulerSupport::default(), SchedulerSupport { background: false, permission: Permission::Unknown });
    assert_eq!(unsupported::support(), SchedulerSupport { background: false, permission: Permission::Unsupported });
    assert_eq!(unsupported::request_permission(), Permission::Unsupported);
    assert!(unsupported::apply(vec![ScheduleAction::Remove { note_id: "n".into() }]).is_empty());
    assert_eq!(desktop::support(false).permission, Permission::Granted);
    assert_eq!(desktop::request_permission(true), Permission::Denied);
    assert!(desktop::apply(vec![ScheduleAction::Remove { note_id: "n".into() }]).is_empty());
    assert_eq!(permission_of(AuthorizationStatus::Provisional), Permission::Granted);
    assert_eq!(permission_of(AuthorizationStatus::Denied), Permission::Denied);
    assert_eq!(permission_of(AuthorizationStatus::NotDetermined), Permission::Unknown);
    assert_eq!(macos::support(Some(AuthorizationStatus::Authorized), Permission::Denied), SchedulerSupport { background: true, permission: Permission::Granted });
    assert_eq!(macos::support(None, Permission::Denied), SchedulerSupport { background: false, permission: Permission::Denied });
    assert_eq!(permission_from_request(false, Some(true)), Permission::Unsupported);
    assert_eq!(permission_from_request(true, None), Permission::Unknown);
    assert_eq!(macos::apply(true, vec![ScheduleAction::Remove { note_id: "n".into() }]).len(), 1);
    assert!(macos::apply(false, vec![ScheduleAction::Remove { note_id: "n".into() }]).is_empty());
    let trigger = trigger_for(ymdhm_to_date_ms(2026, 8, 8, 9, 30));
    assert_eq!((trigger.year, trigger.month, trigger.day, trigger.hour, trigger.minute, trigger.second), (2026, 8, 8, 9, 30, 0));
}

#[test]
fn only_the_latest_reconcile_run_acts() {
    let mut runs = ReminderRuns::new();
    assert_eq!(runs.start(false, true), None);
    assert_eq!(runs.start(true, false), None);
    let first = runs.start(true, true).unwrap();
    let second = runs.start(true, true).unwrap();
    assert_eq!((first, second), (1, 2));
    assert_eq!(runs.after_debounce(first, "user-1"), RunStep::Stale);
    assert_eq!(runs.after_debounce(second, "user-1"), RunStep::Reconcile);
    assert_eq!(runs.after_debounce(second, ""), RunStep::ClearAll);
    assert!(should_deliver_due(false, true, "user-1"));
    assert!(!should_deliver_due(true, true, "user-1"));
    assert!(!should_deliver_due(false, false, "user-1"));
    assert!(!should_deliver_due(false, true, ""));
    assert!(!has_work::<u8>(&Vec::new()));
    assert!(has_work(&vec![1u8]));
}

fn row(id: &str, tag_ids: &str) -> NoteRow {
    NoteRow {
        id: id.into(),
        title: format!("{id} title"),
        content: "body".into(),
        folder_id: Some("folder-1".into()),
        tag_ids: tag_ids.into(),
        pinned: true,
        starred: false,
        updated_at_ms: 7,
        sort_order: 3,
        date_ms: 1_000,
        remind_before_hours: Some(2),
    }
}

#[test]
fn stored_rows_become_the_users_notes() {
    let note = note_from_row("user-1", row("note-1", "[\"tag-1\",\"tag-2\"]"));
    assert_eq!(note.user_id, "user-1");
    assert_eq!(note.id, "note-1");
    assert_eq!(note.tag_ids, vec!["tag-1".to_string(), "tag-2".to_string()]);
    assert_eq!(note.order, 3);
    assert_eq!(note.folder_id, Some("folder-1".to_string()));
    assert_eq!(note.remind_before_hours, Some(2));
    assert!(note_from_row("user-1", row("note-2", "not json")).tag_ids.is_empty());
    assert!(note_from_row("user-1", row("note-3", "[1, 2]")).tag_ids.is_empty());
    assert!(note_from_row("user-1", row("note-4", "[]")).tag_ids.is_empty());
    let notes = notes_from_rows("user-2", vec![row("a", "[]"), row("b", "[\"x\"]"), row("c", "")]);
    assert_eq!(notes.iter().map(|n| n.id.as_str()).collect::<Vec<_>>(), vec!["a", "b", "c"]);
    assert_eq!(notes[1].tag_ids, vec!["x".to_string()]);
    assert!(notes.iter().all(|n| n.user_id == "user-2"));
}

#[test]
fn applying_a_change_plans_its_writes() {
    let (outcome, writes) = apply_plan(false, true, EntityKind::Note, None, false);
    assert_eq!(outcome, ApplyOutcome::Applied);
    assert_eq!(writes, vec![StoreWrite::DeleteEntity(EntityKind::Note), StoreWrite::DeleteReminderSchedule, StoreWrite::RecordApplied]);
    let (_, writes) = apply_plan(false, true, EntityKind::Tag, None, false);
    assert_eq!(writes, vec![StoreWrite::DeleteEntity(EntityKind::Tag), StoreWrite::RecordApplied]);
    let (outcome, writes) = apply_plan(false, false, EntityKind::Folder, Some(EntityKind::Folder), true);
    assert_eq!(outcome, ApplyOutcome::Applied);
    assert_eq!(writes, vec![StoreWrite::Upsert(EntityKind::Folder), StoreWrite::RecordApplied]);
    let (outcome, writes) = apply_plan(false, false, EntityKind::Note, Some(EntityKind::Note), false);
    assert_eq!(outcome, ApplyOutcome::Skipped);
    assert_eq!(writes, vec![StoreWrite::RecordApplied]);
    let (outcome, writes) = apply_plan(true, true, EntityKind::Note, None, true);
    assert_eq!(outcome, ApplyOutcome::AlreadyApplied);
    assert!(writes.is_empty());
}
