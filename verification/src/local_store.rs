//! What the local store decides and records about synced changes and
//! scheduled reminders.
use vstd::prelude::*;

use crate::note::{opt_str_view, Note, NoteView};
use crate::reminders::{
    notes_view, records_view, ActionView, RecordView, ScheduleAction, ScheduledRecord,
};

verus! {

/// What applying a synced change did.
#[derive(Debug, Clone, Copy, PartialEq, Eq, Structural)]
pub enum ApplyOutcome {
    /// The change was written (or its entity deleted).
    Applied,
    /// The stored entity is newer; the change was dropped.
    Skipped,
    /// The change had been applied before.
    AlreadyApplied,
}

/// What applying a change does: a change seen before is not applied again;
/// a deletion always applies; an upsert applies unless the stored entity is
/// newer than the change.
pub open spec fn apply_outcome_spec(
    already_applied: bool,
    is_delete: bool,
    change_is_newer_or_equal: bool,
) -> ApplyOutcome {
    if already_applied {
        ApplyOutcome::AlreadyApplied
    } else if is_delete || change_is_newer_or_equal {
        ApplyOutcome::Applied
    } else {
        ApplyOutcome::Skipped
    }
}

/// Decides what applying a change does, given whether it was applied
/// before, whether it deletes, and whether it is at least as new as the
/// stored entity.
pub fn apply_outcome(already_applied: bool, is_delete: bool, change_is_newer_or_equal: bool) -> (r:
    ApplyOutcome)
    ensures
        r == apply_outcome_spec(already_applied, is_delete, change_is_newer_or_equal),
{
    if already_applied {
        ApplyOutcome::AlreadyApplied
    } else if is_delete || change_is_newer_or_equal {
        ApplyOutcome::Applied
    } else {
        ApplyOutcome::Skipped
    }
}

/// Whether an applied change (or one seen before) is recorded as applied:
/// every change that reaches the store is, so it is never applied twice.
pub fn records_change(outcome: ApplyOutcome) -> (r: bool)
    ensures
        r == (outcome != ApplyOutcome::AlreadyApplied),
{
    match outcome {
        ApplyOutcome::AlreadyApplied => false,
        _ => true,
    }
}

/// A reminder the store remembers having scheduled for a note.
#[derive(Debug, Clone, PartialEq)]
pub struct ReminderSchedule {
    pub note_id: String,
    pub fire_at_ms: i64,
    pub payload_hash: String,
    pub scheduled_at_ms: i64,
}

pub struct ScheduleView {
    pub note_id: Seq<char>,
    pub fire_at_ms: i64,
    pub payload_hash: Seq<char>,
    pub scheduled_at_ms: i64,
}

impl View for ReminderSchedule {
    type V = ScheduleView;

    open spec fn view(&self) -> ScheduleView {
        ScheduleView {
            note_id: self.note_id@,
            fire_at_ms: self.fire_at_ms,
            payload_hash: self.payload_hash@,
            scheduled_at_ms: self.scheduled_at_ms,
        }
    }
}

/// The record a stored schedule stands for.
pub open spec fn record_of_spec(s: ScheduleView) -> RecordView {
    RecordView { note_id: s.note_id, fire_at_local_ms: s.fire_at_ms, payload_hash: s.payload_hash }
}

/// The record a stored schedule stands for.
pub fn record_of(schedule: ReminderSchedule) -> (r: ScheduledRecord)
    ensures
        r@ == record_of_spec(schedule@),
{
    ScheduledRecord {
        note_id: schedule.note_id,
        fire_at_local_ms: schedule.fire_at_ms,
        payload_hash: schedule.payload_hash,
    }
}

/// The records of stored schedules, in order.
pub open spec fn records_of_spec(s: Seq<ReminderSchedule>) -> Seq<RecordView> {
    s.map_values(|x: ReminderSchedule| record_of_spec(x@))
}

/// The records of stored schedules, in order.
pub fn records_of(schedules: Vec<ReminderSchedule>) -> (r: Vec<ScheduledRecord>)
    ensures
        records_view(r@) == records_of_spec(schedules@),
{
    let mut out: Vec<ScheduledRecord> = Vec::new();
    let mut i: usize = 0;
    while i < schedules.len()
        invariant
            i <= schedules.len(),
            records_view(out@) == records_of_spec(schedules@).take(i as int),
        decreases schedules.len() - i,
    {
        let record = ScheduledRecord {
            note_id: schedules[i].note_id.clone(),
            fire_at_local_ms: schedules[i].fire_at_ms,
            payload_hash: schedules[i].payload_hash.clone(),
        };
        assert(record@ == records_of_spec(schedules@)[i as int]);
        let ghost before = out@;
        assert(records_view(before).len() == before.len());
        assert(records_of_spec(schedules@).len() == schedules@.len());
        assert(records_of_spec(schedules@).take(i as int).len() == i);
        out.push(record);
        assert(out@ == before.push(record));
        assert(records_view(out@) =~= records_of_spec(schedules@).take(i + 1));
        i = i + 1;
    }
    assert(records_of_spec(schedules@).take(schedules.len() as int) =~= records_of_spec(schedules@));
    out
}

/// What the store writes after the scheduler carried out an action: the
/// schedule of a scheduled reminder, or the removal of a note's schedule.
pub enum ScheduleWrite {
    Upsert(ReminderSchedule),
    Delete { note_id: String },
}

pub enum WriteView {
    Upsert(ScheduleView),
    Delete(Seq<char>),
}

impl View for ScheduleWrite {
    type V = WriteView;

    open spec fn view(&self) -> WriteView {
        match self {
            ScheduleWrite::Upsert(s) => WriteView::Upsert(s@),
            ScheduleWrite::Delete { note_id } => WriteView::Delete(note_id@),
        }
    }
}

/// The write that records a carried-out action at `now_ms`.
pub open spec fn schedule_write_spec(action: ActionView, now_ms: i64) -> WriteView {
    match action {
        ActionView::Schedule(r) => WriteView::Upsert(
            ScheduleView {
                note_id: r.note_id,
                fire_at_ms: r.fire_at_local_ms,
                payload_hash: r.payload_hash,
                scheduled_at_ms: now_ms,
            },
        ),
        ActionView::Remove(id) => WriteView::Delete(id),
    }
}

/// The write that records a carried-out action at `now_ms`.
pub fn schedule_write(action: ScheduleAction, now_ms: i64) -> (r: ScheduleWrite)
    ensures
        r@ == schedule_write_spec(action@, now_ms),
{
    match action {
        ScheduleAction::Schedule(reminder) => ScheduleWrite::Upsert(
            ReminderSchedule {
                note_id: reminder.note_id,
                fire_at_ms: reminder.fire_at_local_ms,
                payload_hash: reminder.payload_hash,
                scheduled_at_ms: now_ms,
            },
        ),
        ScheduleAction::Remove { note_id } => ScheduleWrite::Delete { note_id },
    }
}

/// Recording a scheduled reminder and reading it back gives the record the
/// plan compares with: the reminder's note, fire time and payload hash.
pub proof fn lemma_written_schedule_reads_back(action: ActionView, now_ms: i64)
    requires
        action is Schedule,
    ensures
        schedule_write_spec(action, now_ms) matches WriteView::Upsert(s) && record_of_spec(s)
            == (RecordView {
            note_id: action->Schedule_0.note_id,
            fire_at_local_ms: action->Schedule_0.fire_at_local_ms,
            payload_hash: action->Schedule_0.payload_hash,
        }),
{
}

/// What `serde_json::from_str::<Vec<String>>` reads from a stored text: the
/// list of strings the JSON text holds, or nothing when it does not hold
/// one.  It depends on the text alone.
pub uninterp spec fn stored_tag_list(text: Seq<char>) -> Option<Seq<Seq<char>>>;

/// `serde_json::from_str::<Vec<String>>`: the tag ids a stored JSON text
/// lists, or `None` when the text is not a JSON list of strings.
#[verifier::external_body]
fn parse_tag_list(text: &str) -> (r: Option<Vec<String>>)
    ensures
        match stored_tag_list(text@) {
            Some(v) => r matches Some(x) && x.deep_view() == v,
            None => r is None,
        },
{
    serde_json::from_str::<Vec<String>>(text).ok()
}

/// A stored note as the store's query returns it: its columns, with the tag
/// ids as the JSON text they are stored as.
pub struct NoteRow {
    pub id: String,
    pub title: String,
    pub content: String,
    pub folder_id: Option<String>,
    pub tag_ids: String,
    pub pinned: bool,
    pub starred: bool,
    pub updated_at_ms: i64,
    pub sort_order: i64,
    pub date_ms: i64,
    pub remind_before_hours: Option<i64>,
}

pub struct NoteRowView {
    pub id: Seq<char>,
    pub title: Seq<char>,
    pub content: Seq<char>,
    pub folder_id: Option<Seq<char>>,
    pub tag_ids: Seq<char>,
    pub pinned: bool,
    pub starred: bool,
    pub updated_at_ms: i64,
    pub sort_order: i64,
    pub date_ms: i64,
    pub remind_before_hours: Option<i64>,
}

impl View for NoteRow {
    type V = NoteRowView;

    open spec fn view(&self) -> NoteRowView {
        NoteRowView {
            id: self.id@,
            title: self.title@,
            content: self.content@,
            folder_id: opt_str_view(self.folder_id),
            tag_ids: self.tag_ids@,
            pinned: self.pinned,
            starred: self.starred,
            updated_at_ms: self.updated_at_ms,
            sort_order: self.sort_order,
            date_ms: self.date_ms,
            remind_before_hours: self.remind_before_hours,
        }
    }
}

pub open spec fn rows_view(s: Seq<NoteRow>) -> Seq<NoteRowView> {
    s.map_values(|r: NoteRow| r@)
}

/// The note of user `user_id` that a stored row holds; tag ids that do not
/// read as a JSON list of strings count as none.
pub open spec fn note_of_row(user_id: Seq<char>, row: NoteRowView) -> NoteView {
    NoteView {
        user_id: user_id,
        id: row.id,
        title: row.title,
        content: row.content,
        folder_id: row.folder_id,
        tag_ids: match stored_tag_list(row.tag_ids) {
            Some(v) => v,
            None => Seq::empty(),
        },
        pinned: row.pinned,
        starred: row.starred,
        updated_at_ms: row.updated_at_ms,
        order: row.sort_order,
        date_ms: row.date_ms,
        remind_before_hours: row.remind_before_hours,
    }
}

/// The note of user `user_id` that a stored row holds.
pub fn note_from_row(user_id: &str, row: NoteRow) -> (n: Note)
    ensures
        n@ == note_of_row(user_id@, row@),
{
    let tag_ids = match parse_tag_list(row.tag_ids.as_str()) {
        Some(ids) => ids,
        None => {
            let none: Vec<String> = Vec::new();
            assert(none.deep_view() =~= Seq::<Seq<char>>::empty());
            none
        },
    };
    let n = Note {
        user_id: user_id.to_string(),
        id: row.id,
        title: row.title,
        content: row.content,
        folder_id: row.folder_id,
        tag_ids,
        pinned: row.pinned,
        starred: row.starred,
        updated_at_ms: row.updated_at_ms,
        order: row.sort_order,
        date_ms: row.date_ms,
        remind_before_hours: row.remind_before_hours,
    };
    assert(n@.tag_ids == note_of_row(user_id@, row@).tag_ids);
    n
}

/// The notes of user `user_id` that stored rows hold, in row order.
pub open spec fn notes_of_rows(user_id: Seq<char>, rows: Seq<NoteRowView>) -> Seq<NoteView> {
    rows.map_values(|r: NoteRowView| note_of_row(user_id, r))
}

/// The notes of user `user_id` that stored rows hold, in row order.
pub fn notes_from_rows(user_id: &str, rows: Vec<NoteRow>) -> (r: Vec<Note>)
    ensures
        notes_view(r@) == notes_of_rows(user_id@, rows_view(rows@)),
{
    let ghost want = notes_of_rows(user_id@, rows_view(rows@));
    let ghost given_rows = rows@;
    let mut rows = rows;
    let mut out: Vec<Note> = Vec::new();
    let mut i: usize = 0;
    let n = rows.len();
    while i < n
        invariant
            n == given_rows.len(),
            i <= n,
            rows@ == given_rows.skip(i as int),
            want == notes_of_rows(user_id@, rows_view(given_rows)),
            notes_view(out@) == want.take(i as int),
        decreases n - i,
    {
        let row = rows.remove(0);
        assert(row == given_rows[i as int]);
        let note = note_from_row(user_id, row);
        assert(note@ == want[i as int]);
        let ghost before = out@;
        assert(notes_view(before).len() == before.len());
        assert(want.take(i as int).len() == i);
        out.push(note);
        assert(out@ == before.push(note));
        assert(notes_view(out@) =~= want.take(i + 1));
        assert(rows@ =~= given_rows.skip(i + 1));
        i = i + 1;
    }
    assert(want.take(n as int) =~= want);
    out
}

/// The kind of entity a synced change is about.
#[derive(Debug, Clone, Copy, PartialEq, Eq, Structural)]
pub enum EntityKind {
    Note,
    Folder,
    Tag,
}

/// A write to the local store.
#[derive(Debug, Clone, Copy, PartialEq, Eq, Structural)]
pub enum StoreWrite {
    /// Delete the user's entity of this kind and the change's id.
    DeleteEntity(EntityKind),
    /// Delete the reminder schedule of the deleted note.
    DeleteReminderSchedule,
    /// Insert or replace the entity the change carries, of this kind.
    Upsert(EntityKind),
    /// Record the change as applied.
    RecordApplied,
}

/// The writes that applying a change makes, in order: none for a change
/// applied before; for a deletion, the entity's removal (and, for a note,
/// its reminder schedule's); for an upsert at least as new as the stored
/// entity, the payload it carries (if any); then, in both cases, the record
/// that the change was applied.
pub open spec fn apply_writes_spec(
    already_applied: bool,
    is_delete: bool,
    entity: EntityKind,
    payload: Option<EntityKind>,
    change_is_newer_or_equal: bool,
) -> Seq<StoreWrite> {
    if already_applied {
        Seq::empty()
    } else if is_delete {
        if entity == EntityKind::Note {
            seq![
                StoreWrite::DeleteEntity(entity),
                StoreWrite::DeleteReminderSchedule,
                StoreWrite::RecordApplied,
            ]
        } else {
            seq![StoreWrite::DeleteEntity(entity), StoreWrite::RecordApplied]
        }
    } else if change_is_newer_or_equal {
        match payload {
            Some(kind) => seq![StoreWrite::Upsert(kind), StoreWrite::RecordApplied],
            None => seq![StoreWrite::RecordApplied],
        }
    } else {
        seq![StoreWrite::RecordApplied]
    }
}

/// What applying a change does: its outcome and the writes it makes.
pub fn apply_plan(
    already_applied: bool,
    is_delete: bool,
    entity: EntityKind,
    payload: Option<EntityKind>,
    change_is_newer_or_equal: bool,
) -> (r: (ApplyOutcome, Vec<StoreWrite>))
    ensures
        r.0 == apply_outcome_spec(already_applied, is_delete, change_is_newer_or_equal),
        r.1@ == apply_writes_spec(
            already_applied,
            is_delete,
            entity,
            payload,
            change_is_newer_or_equal,
        ),
{
    let outcome = apply_outcome(already_applied, is_delete, change_is_newer_or_equal);
    let mut writes: Vec<StoreWrite> = Vec::new();
    if already_applied {
        return (outcome, writes);
    }
    if is_delete {
        writes.push(StoreWrite::DeleteEntity(entity));
        if entity == EntityKind::Note {
            writes.push(StoreWrite::DeleteReminderSchedule);
        }
    } else if change_is_newer_or_equal {
        match payload {
            Some(kind) => writes.push(StoreWrite::Upsert(kind)),
            None => {},
        }
    }
    writes.push(StoreWrite::RecordApplied);
    proof {
        assert(writes@ =~= apply_writes_spec(
            already_applied,
            is_delete,
            entity,
            payload,
            change_is_newer_or_equal,
        ));
    }
    (outcome, writes)
}

/// A change is recorded as applied exactly when it was not applied before,
/// so applying it again makes no write; and deleting a note always drops its
/// reminder schedule.
pub proof fn lemma_apply_is_idempotent(
    entity: EntityKind,
    payload: Option<EntityKind>,
    is_delete: bool,
    newer: bool,
)
    ensures
        apply_writes_spec(false, is_delete, entity, payload, newer).contains(
            StoreWrite::RecordApplied,
        ),
        apply_writes_spec(true, is_delete, entity, payload, newer) == Seq::<StoreWrite>::empty(),
        is_delete && entity == EntityKind::Note ==> apply_writes_spec(
            false,
            is_delete,
            entity,
            payload,
            newer,
        ).contains(StoreWrite::DeleteReminderSchedule),
{
    let w = apply_writes_spec(false, is_delete, entity, payload, newer);
    assert(w[w.len() - 1] == StoreWrite::RecordApplied);
    if is_delete && entity == EntityKind::Note {
        assert(w[1] == StoreWrite::DeleteReminderSchedule);
    }
}

} // verus!
