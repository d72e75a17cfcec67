//! Planning of note reminders: when a reminder fires, which reminders should
//! be scheduled, which are due now, and which scheduling actions bring the
//! stored schedule in line with the desired one.
use vstd::prelude::*;

use crate::date_math::MS_PER_HOUR;
use crate::note::{Note, NoteView};
use crate::text::{hex_fixed, push_hex_fixed};

verus! {

/// At most this many reminders are handed to the platform scheduler.
pub const MAX_SCHEDULED: usize = 60;

/// A reminder that fired at most this long ago is still delivered.
pub const CATCH_UP_WINDOW_MS: i64 = 60 * 60 * 1000;

/// A reminder as the local store remembers having scheduled it.
#[derive(Debug, Clone, PartialEq)]
pub struct ScheduledRecord {
    pub note_id: String,
    pub fire_at_local_ms: i64,
    pub payload_hash: String,
}

/// A reminder to hand to the platform scheduler.
#[derive(Debug, Clone, PartialEq)]
pub struct ScheduledReminder {
    pub note_id: String,
    pub fire_at_local_ms: i64,
    pub payload_hash: String,
    pub title: String,
    pub body: String,
}

/// A change to the platform's schedule.
#[derive(Debug, Clone, PartialEq)]
pub enum ScheduleAction {
    Schedule(ScheduledReminder),
    Remove { note_id: String },
}

pub struct RecordView {
    pub note_id: Seq<char>,
    pub fire_at_local_ms: i64,
    pub payload_hash: Seq<char>,
}

pub struct ReminderView {
    pub note_id: Seq<char>,
    pub fire_at_local_ms: i64,
    pub payload_hash: Seq<char>,
    pub title: Seq<char>,
    pub body: Seq<char>,
}

pub enum ActionView {
    Schedule(ReminderView),
    Remove(Seq<char>),
}

impl View for ScheduledRecord {
    type V = RecordView;

    open spec fn view(&self) -> RecordView {
        RecordView {
            note_id: self.note_id@,
            fire_at_local_ms: self.fire_at_local_ms,
            payload_hash: self.payload_hash@,
        }
    }
}

impl View for ScheduledReminder {
    type V = ReminderView;

    open spec fn view(&self) -> ReminderView {
        ReminderView {
            note_id: self.note_id@,
            fire_at_local_ms: self.fire_at_local_ms,
            payload_hash: self.payload_hash@,
            title: self.title@,
            body: self.body@,
        }
    }
}

impl View for ScheduleAction {
    type V = ActionView;

    open spec fn view(&self) -> ActionView {
        match self {
            ScheduleAction::Schedule(r) => ActionView::Schedule(r@),
            ScheduleAction::Remove { note_id } => ActionView::Remove(note_id@),
        }
    }
}

pub open spec fn reminders_view(s: Seq<ScheduledReminder>) -> Seq<ReminderView> {
    s.map_values(|r: ScheduledReminder| r@)
}

pub open spec fn records_view(s: Seq<ScheduledRecord>) -> Seq<RecordView> {
    s.map_values(|r: ScheduledRecord| r@)
}

pub open spec fn actions_view(s: Seq<ScheduleAction>) -> Seq<ActionView> {
    s.map_values(|a: ScheduleAction| a@)
}

// ---------------------------------------------------------------------------
// When a reminder fires, and its payload hash.
// ---------------------------------------------------------------------------
/// Local wall-clock instant at which a reminder set `remind_before_hours`
/// before a note's date fires.
pub open spec fn fire_at_spec(date_ms: int, remind_before_hours: int) -> int {
    date_ms - remind_before_hours * MS_PER_HOUR
}

/// Local wall-clock instant at which a reminder set `remind_before_hours`
/// before a note's date fires.
pub fn fire_at_local_ms(date_ms: i64, remind_before_hours: i64) -> (r: i64)
    requires
        i64::MIN <= remind_before_hours * MS_PER_HOUR <= i64::MAX,
        i64::MIN <= fire_at_spec(date_ms as int, remind_before_hours as int) <= i64::MAX,
    ensures
        r == fire_at_spec(date_ms as int, remind_before_hours as int),
{
    date_ms - remind_before_hours * MS_PER_HOUR
}

/// 64-bit FNV-1a hash of a byte string.
pub open spec fn fnv1a(bytes: Seq<u8>) -> u64
    decreases bytes.len(),
{
    if bytes.len() == 0 {
        0xcbf2_9ce4_8422_2325u64
    } else {
        (fnv1a(bytes.drop_last()) ^ (bytes.last() as u64)).wrapping_mul(0x0000_0100_0000_01b3u64)
    }
}

/// The UTF-8 bytes of a title and a body, separated by a unit separator.
pub open spec fn payload_bytes(title: Seq<char>, body: Seq<char>) -> Seq<u8> {
    vstd::utf8::encode_utf8(title) + seq![0x1fu8] + vstd::utf8::encode_utf8(body)
}

/// The FNV-1a hash of a notification's title and body, as 16 lowercase hex
/// digits: it changes when the text the user would see changes.
pub open spec fn payload_hash_spec(title: Seq<char>, body: Seq<char>) -> Seq<char> {
    hex_fixed(fnv1a(payload_bytes(title, body)) as nat, 16)
}

fn fnv1a_extend(hash: u64, bytes: &[u8]) -> (r: u64)
    ensures
        forall|prefix: Seq<u8>|
            fnv1a(prefix) == hash ==> #[trigger] fnv1a(prefix + bytes@) == r,
{
    let mut h = hash;
    let mut i: usize = 0;
    while i < bytes.len()
        invariant
            i <= bytes.len(),
            forall|prefix: Seq<u8>|
                fnv1a(prefix) == hash ==> #[trigger] fnv1a(prefix + bytes@.take(i as int)) == h,
        decreases bytes.len() - i,
    {
        let b = bytes[i];
        let h_old = h;
        h = (h ^ (b as u64)).wrapping_mul(0x0000_0100_0000_01b3);
        proof {
            assert forall|prefix: Seq<u8>| fnv1a(prefix) == hash implies #[trigger] fnv1a(
                prefix + bytes@.take(i + 1),
            ) == h by {
                let longer = prefix + bytes@.take(i + 1);
                assert(longer.drop_last() =~= prefix + bytes@.take(i as int));
                assert(fnv1a(prefix + bytes@.take(i as int)) == h_old);
                assert(longer.last() == b);
            }
        }
        i = i + 1;
    }
    proof {
        assert(bytes@.take(bytes@.len() as int) =~= bytes@);
    }
    h
}

/// The FNV-1a hash of a notification's title and body, as 16 lowercase hex
/// digits.
pub fn payload_hash(title: &str, body: &str) -> (r: String)
    ensures
        r@ == payload_hash_spec(title@, body@),
{
    let ghost empty: Seq<u8> = Seq::empty();
    let tb = title.as_bytes();
    let h1 = fnv1a_extend(0xcbf2_9ce4_8422_2325, tb);
    assert(fnv1a(empty) == 0xcbf2_9ce4_8422_2325u64);
    assert(fnv1a(empty + tb@) == h1);
    assert(empty + tb@ =~= vstd::utf8::encode_utf8(title@));
    let sep: [u8; 1] = [0x1f];
    let h2 = fnv1a_extend(h1, sep.as_slice());
    assert(fnv1a(vstd::utf8::encode_utf8(title@) + seq![0x1fu8]) == h2) by {
        assert(sep@ =~= seq![0x1fu8]);
    }
    let bb = body.as_bytes();
    let h3 = fnv1a_extend(h2, bb);
    assert(fnv1a(vstd::utf8::encode_utf8(title@) + seq![0x1fu8] + bb@) == h3);
    assert(fnv1a(payload_bytes(title@, body@)) == h3);
    let mut out = String::new();
    push_hex_fixed(&mut out, h3, 16);
    out
}


// ---------------------------------------------------------------------------
// Copies.
// ---------------------------------------------------------------------------
impl ScheduledReminder {
    /// A field-by-field copy of the reminder.
    pub fn duplicate(&self) -> (r: ScheduledReminder)
        ensures
            r@ == self@,
    {
        ScheduledReminder {
            note_id: self.note_id.clone(),
            fire_at_local_ms: self.fire_at_local_ms,
            payload_hash: self.payload_hash.clone(),
            title: self.title.clone(),
            body: self.body.clone(),
        }
    }
}

// ---------------------------------------------------------------------------
// Reconciling the desired schedule with the stored one.
// ---------------------------------------------------------------------------
/// The stored record is exactly this reminder: same note, instant and payload.
pub open spec fn record_matches(r: ReminderView, c: RecordView) -> bool {
    r.note_id == c.note_id && r.fire_at_local_ms == c.fire_at_local_ms && r.payload_hash
        == c.payload_hash
}

/// Some stored record is exactly this reminder.
pub open spec fn already_scheduled(r: ReminderView, current: Seq<RecordView>) -> bool {
    exists|i: int| 0 <= i < current.len() && record_matches(r, #[trigger] current[i])
}

/// Some desired reminder is for the note of this stored record.
pub open spec fn still_desired(c: RecordView, desired: Seq<ReminderView>) -> bool {
    exists|i: int| 0 <= i < desired.len() && (#[trigger] desired[i]).note_id == c.note_id
}

/// One `Schedule` action per desired reminder that is not stored as it is, in
/// order.
pub open spec fn schedule_actions(desired: Seq<ReminderView>, current: Seq<RecordView>) -> Seq<
    ActionView,
>
    decreases desired.len(),
{
    if desired.len() == 0 {
        Seq::empty()
    } else {
        let prev = schedule_actions(desired.drop_last(), current);
        if already_scheduled(desired.last(), current) {
            prev
        } else {
            prev.push(ActionView::Schedule(desired.last()))
        }
    }
}

/// One `Remove` action per stored record whose note has no desired reminder,
/// in order.
pub open spec fn remove_actions(current: Seq<RecordView>, desired: Seq<ReminderView>) -> Seq<
    ActionView,
>
    decreases current.len(),
{
    if current.len() == 0 {
        Seq::empty()
    } else {
        let prev = remove_actions(current.drop_last(), desired);
        if still_desired(current.last(), desired) {
            prev
        } else {
            prev.push(ActionView::Remove(current.last().note_id))
        }
    }
}

/// The actions that bring the stored schedule in line with the desired one:
/// first the reminders to (re)schedule, then the stored ones to remove.
pub open spec fn diff_spec(desired: Seq<ReminderView>, current: Seq<RecordView>) -> Seq<ActionView> {
    schedule_actions(desired, current) + remove_actions(current, desired)
}

fn is_already_scheduled(reminder: &ScheduledReminder, current: &[ScheduledRecord]) -> (r: bool)
    ensures
        r == already_scheduled(reminder@, records_view(current@)),
{
    let ghost cv = records_view(current@);
    let mut i: usize = 0;
    while i < current.len()
        invariant
            i <= current.len(),
            cv == records_view(current@),
            forall|j: int| 0 <= j < i ==> !record_matches(reminder@, #[trigger] cv[j]),
        decreases current.len() - i,
    {
        let record = &current[i];
        if record.note_id == reminder.note_id && record.fire_at_local_ms == reminder.fire_at_local_ms
            && record.payload_hash == reminder.payload_hash {
            assert(record_matches(reminder@, cv[i as int]));
            return true;
        }
        i = i + 1;
    }
    false
}

fn is_still_desired(record: &ScheduledRecord, desired: &[ScheduledReminder]) -> (r: bool)
    ensures
        r == still_desired(record@, reminders_view(desired@)),
{
    let ghost dv = reminders_view(desired@);
    let mut i: usize = 0;
    while i < desired.len()
        invariant
            i <= desired.len(),
            dv == reminders_view(desired@),
            forall|j: int| 0 <= j < i ==> (#[trigger] dv[j]).note_id != record@.note_id,
        decreases desired.len() - i,
    {
        if desired[i].note_id == record.note_id {
            assert(dv[i as int].note_id == record@.note_id);
            return true;
        }
        i = i + 1;
    }
    false
}

/// The actions that bring the stored schedule `current` in line with the
/// `desired` reminders.
pub fn diff(desired: &[ScheduledReminder], current: &[ScheduledRecord]) -> (r: Vec<ScheduleAction>)
    ensures
        actions_view(r@) == diff_spec(reminders_view(desired@), records_view(current@)),
{
    let ghost dv = reminders_view(desired@);
    let ghost cv = records_view(current@);
    let mut actions: Vec<ScheduleAction> = Vec::new();
    let mut i: usize = 0;
    while i < desired.len()
        invariant
            i <= desired.len(),
            dv == reminders_view(desired@),
            cv == records_view(current@),
            actions_view(actions@) == schedule_actions(dv.take(i as int), cv),
        decreases desired.len() - i,
    {
        let reminder = &desired[i];
        assert(dv.take(i + 1).drop_last() =~= dv.take(i as int));
        if !is_already_scheduled(reminder, current) {
            actions.push(ScheduleAction::Schedule(reminder.duplicate()));
        }
        assert(actions_view(actions@) =~= schedule_actions(dv.take(i + 1), cv));
        i = i + 1;
    }
    assert(dv.take(desired.len() as int) =~= dv);
    let ghost sched = actions_view(actions@);
    let mut k: usize = 0;
    while k < current.len()
        invariant
            k <= current.len(),
            dv == reminders_view(desired@),
            cv == records_view(current@),
            sched == schedule_actions(dv, cv),
            actions_view(actions@) == sched + remove_actions(cv.take(k as int), dv),
        decreases current.len() - k,
    {
        let record = &current[k];
        assert(cv.take(k + 1).drop_last() =~= cv.take(k as int));
        assert(cv.take(k + 1).last() == record@);
        let ghost before = actions_view(actions@);
        if !is_still_desired(record, desired) {
            actions.push(ScheduleAction::Remove { note_id: record.note_id.clone() });
            assert(actions_view(actions@) =~= before.push(ActionView::Remove(record@.note_id)));
        } else {
            assert(actions_view(actions@) =~= before);
        }
        assert(actions_view(actions@) =~= sched + remove_actions(cv.take(k + 1), dv));
        k = k + 1;
    }
    assert(cv.take(current.len() as int) =~= cv);
    actions
}


// ---------------------------------------------------------------------------
// Reminders of notes.
// ---------------------------------------------------------------------------
pub open spec fn notes_view(notes: Seq<Note>) -> Seq<NoteView> {
    notes.map_values(|n: Note| n@)
}

/// The instant a note's reminder fires, if the note has one.
pub open spec fn note_fire_at(n: NoteView) -> Option<int> {
    match n.remind_before_hours {
        Some(h) => Some(fire_at_spec(n.date_ms as int, h as int)),
        None => None,
    }
}

/// The fire instant of the note's reminder is computable in `i64`.
pub open spec fn fire_at_fits(n: NoteView) -> bool {
    match n.remind_before_hours {
        Some(h) => i64::MIN <= h * MS_PER_HOUR <= i64::MAX && i64::MIN <= fire_at_spec(
            n.date_ms as int,
            h as int,
        ) <= i64::MAX,
        None => true,
    }
}

/// The note's reminder fired between `catch_up_ms` ago and now, measuring its
/// local fire instant on the UTC clock through the local offset.
pub open spec fn is_due(n: NoteView, now_utc_ms: int, local_offset_ms: int, catch_up_ms: int) -> bool {
    match note_fire_at(n) {
        Some(f) => 0 <= now_utc_ms - (f - local_offset_ms) <= catch_up_ms,
        None => false,
    }
}

/// The lateness of the note's reminder is computable in `i64`.
pub open spec fn due_check_fits(n: NoteView, now_utc_ms: int, local_offset_ms: int) -> bool {
    fire_at_fits(n) && match note_fire_at(n) {
        Some(f) => i64::MIN <= f - local_offset_ms <= i64::MAX && i64::MIN <= now_utc_ms - (f
            - local_offset_ms) <= i64::MAX,
        None => true,
    }
}

/// Whether checking a note's reminder for lateness stays within `i64`.
pub fn can_check_due(note: &Note, now_utc_ms: i64, local_offset_ms: i64) -> (r: bool)
    ensures
        r == due_check_fits(note@, now_utc_ms as int, local_offset_ms as int),
{
    match note.remind_before_hours {
        None => true,
        Some(hours) => match hours.checked_mul(MS_PER_HOUR) {
            None => false,
            Some(before) => match note.date_ms.checked_sub(before) {
                None => false,
                Some(fire_at) => match fire_at.checked_sub(local_offset_ms) {
                    None => false,
                    Some(fire_at_utc) => now_utc_ms.checked_sub(fire_at_utc).is_some(),
                },
            },
        },
    }
}

/// The due notes, in order, each with the instant its reminder fires.
pub open spec fn due_notes_spec(
    notes: Seq<NoteView>,
    now_utc_ms: int,
    local_offset_ms: int,
    catch_up_ms: int,
) -> Seq<(NoteView, int)>
    decreases notes.len(),
{
    if notes.len() == 0 {
        Seq::empty()
    } else {
        let prev = due_notes_spec(notes.drop_last(), now_utc_ms, local_offset_ms, catch_up_ms);
        let n = notes.last();
        if is_due(n, now_utc_ms, local_offset_ms, catch_up_ms) {
            prev.push((n, note_fire_at(n)->0))
        } else {
            prev
        }
    }
}

pub open spec fn due_view(s: Seq<(Note, i64)>) -> Seq<(NoteView, int)> {
    s.map_values(|p: (Note, i64)| (p.0@, p.1 as int))
}

/// The notes whose reminder fired within the catch-up window before
/// `now_utc_ms`, each with its local fire instant.
pub fn due_notes(notes: &[Note], now_utc_ms: i64, local_offset_ms: i64, catch_up_ms: i64) -> (r: Vec<
    (Note, i64),
>)
    requires
        forall|i: int|
            0 <= i < notes@.len() ==> due_check_fits(
                #[trigger] notes@[i]@,
                now_utc_ms as int,
                local_offset_ms as int,
            ),
    ensures
        due_view(r@) == due_notes_spec(
            notes_view(notes@),
            now_utc_ms as int,
            local_offset_ms as int,
            catch_up_ms as int,
        ),
{
    let ghost nv = notes_view(notes@);
    let mut out: Vec<(Note, i64)> = Vec::new();
    let mut i: usize = 0;
    while i < notes.len()
        invariant
            i <= notes.len(),
            nv == notes_view(notes@),
            forall|k: int|
                0 <= k < notes@.len() ==> due_check_fits(
                    #[trigger] notes@[k]@,
                    now_utc_ms as int,
                    local_offset_ms as int,
                ),
            due_view(out@) == due_notes_spec(
                nv.take(i as int),
                now_utc_ms as int,
                local_offset_ms as int,
                catch_up_ms as int,
            ),
        decreases notes.len() - i,
    {
        let note = &notes[i];
        assert(nv.take(i + 1).drop_last() =~= nv.take(i as int));
        assert(nv.take(i + 1).last() == note@);
        assert(due_check_fits(notes@[i as int]@, now_utc_ms as int, local_offset_ms as int));
        let ghost before = due_view(out@);
        match note.remind_before_hours {
            Some(hours) => {
                let fire = fire_at_local_ms(note.date_ms, hours);
                let lateness = now_utc_ms - (fire - local_offset_ms);
                if 0 <= lateness && lateness <= catch_up_ms {
                    out.push((note.duplicate(), fire));
                    assert(due_view(out@) =~= before.push((note@, fire as int)));
                } else {
                    assert(due_view(out@) =~= before);
                }
            },
            None => {
                assert(due_view(out@) =~= before);
            },
        }
        i = i + 1;
    }
    assert(nv.take(notes.len() as int) =~= nv);
    out
}

/// The note's reminder fires after `now_local_ms`.
pub open spec fn is_upcoming(n: NoteView, now_local_ms: int) -> bool {
    match note_fire_at(n) {
        Some(f) => f > now_local_ms,
        None => false,
    }
}

/// `r` is the reminder of note `n` with the payload `payload_for` gave for it.
pub open spec fn reminder_of_note<F: Fn(&Note, i64) -> (String, String)>(
    n: Note,
    r: ScheduledReminder,
    payload_for: F,
) -> bool {
    &&& r@.note_id == n@.id
    &&& note_fire_at(n@) == Some(r.fire_at_local_ms as int)
    &&& call_ensures(payload_for, (&n, r.fire_at_local_ms), (r.title, r.body))
    &&& r@.payload_hash == payload_hash_spec(r@.title, r@.body)
}

/// `cands` holds, in note order, one reminder for each note whose reminder is
/// still ahead of `now_local_ms`.
pub open spec fn upcoming_reminders<F: Fn(&Note, i64) -> (String, String)>(
    notes: Seq<Note>,
    now_local_ms: int,
    payload_for: F,
    cands: Seq<ScheduledReminder>,
) -> bool
    decreases notes.len(),
{
    if notes.len() == 0 {
        cands.len() == 0
    } else if is_upcoming(notes.last()@, now_local_ms) {
        &&& cands.len() > 0
        &&& reminder_of_note(notes.last(), cands.last(), payload_for)
        &&& upcoming_reminders(notes.drop_last(), now_local_ms, payload_for, cands.drop_last())
    } else {
        upcoming_reminders(notes.drop_last(), now_local_ms, payload_for, cands)
    }
}

/// Lexicographic order of byte strings, as `str` orders text.
pub open spec fn bytes_le(a: Seq<u8>, b: Seq<u8>) -> bool
    decreases a.len(),
{
    if a.len() == 0 {
        true
    } else if b.len() == 0 {
        false
    } else if a[0] != b[0] {
        a[0] < b[0]
    } else {
        bytes_le(a.skip(1), b.skip(1))
    }
}

/// Reminders are ordered by fire instant, then by note id.
pub open spec fn reminder_key_le(a: ReminderView, b: ReminderView) -> bool {
    a.fire_at_local_ms < b.fire_at_local_ms || (a.fire_at_local_ms == b.fire_at_local_ms
        && bytes_le(vstd::utf8::encode_utf8(a.note_id), vstd::utf8::encode_utf8(b.note_id)))
}

/// Inserts `x` after the last element of `s` that orders at or before it
/// (scanning from the end), as an insertion sort does.
pub open spec fn insert_sorted(s: Seq<ReminderView>, x: ReminderView) -> Seq<ReminderView>
    decreases s.len(),
{
    if s.len() == 0 {
        seq![x]
    } else if reminder_key_le(s.last(), x) {
        s.push(x)
    } else {
        insert_sorted(s.drop_last(), x).push(s.last())
    }
}

/// Stable sort of reminders by (fire instant, note id): reminders with equal
/// keys keep their order.
pub open spec fn sort_reminders(s: Seq<ReminderView>) -> Seq<ReminderView>
    decreases s.len(),
{
    if s.len() == 0 {
        s
    } else {
        insert_sorted(sort_reminders(s.drop_last()), s.last())
    }
}

pub open spec fn min_nat(a: int, b: int) -> int {
    if a <= b {
        a
    } else {
        b
    }
}

fn bytes_le_exec(a: &[u8], b: &[u8]) -> (r: bool)
    ensures
        r == bytes_le(a@, b@),
{
    let mut i: usize = 0;
    assert(a@.skip(0) =~= a@);
    assert(b@.skip(0) =~= b@);
    while i < a.len() && i < b.len()
        invariant
            i <= a.len(),
            i <= b.len(),
            bytes_le(a@, b@) == bytes_le(a@.skip(i as int), b@.skip(i as int)),
        decreases a.len() - i,
    {
        if a[i] != b[i] {
            return a[i] < b[i];
        }
        assert(a@.skip(i as int).skip(1) =~= a@.skip(i + 1));
        assert(b@.skip(i as int).skip(1) =~= b@.skip(i + 1));
        i = i + 1;
    }
    i == a.len()
}

fn key_le(a: &ScheduledReminder, b: &ScheduledReminder) -> (r: bool)
    ensures
        r == reminder_key_le(a@, b@),
{
    if a.fire_at_local_ms != b.fire_at_local_ms {
        return a.fire_at_local_ms < b.fire_at_local_ms;
    }
    bytes_le_exec(a.note_id.as_str().as_bytes(), b.note_id.as_str().as_bytes())
}

fn insert_by_key(v: &mut Vec<ScheduledReminder>, x: ScheduledReminder)
    ensures
        reminders_view(final(v)@) == insert_sorted(reminders_view(old(v)@), x@),
{
    let ghost vw = reminders_view(v@);
    let mut j = v.len();
    assert(vw.take(j as int) =~= vw);
    assert(vw.skip(j as int) =~= Seq::<ReminderView>::empty());
    loop
        invariant
            j <= v.len(),
            vw == reminders_view(v@),
            v@ == old(v)@,
            insert_sorted(vw, x@) == insert_sorted(vw.take(j as int), x@) + vw.skip(j as int),
        ensures
            j <= v.len(),
            vw == reminders_view(v@),
            v@ == old(v)@,
            insert_sorted(vw, x@) == insert_sorted(vw.take(j as int), x@) + vw.skip(j as int),
            j == 0 || reminder_key_le(vw[j - 1], x@),
        decreases j,
    {
        if j == 0 {
            break;
        }
        if key_le(&v[j - 1], &x) {
            break;
        }
        proof {
            let t = vw.take(j as int);
            assert(t.drop_last() =~= vw.take(j - 1));
            assert(t.last() == vw[j - 1]);
            assert(insert_sorted(t, x@) == insert_sorted(vw.take(j - 1), x@).push(vw[j - 1]));
            assert(insert_sorted(vw.take(j - 1), x@).push(vw[j - 1]) + vw.skip(j as int)
                =~= insert_sorted(vw.take(j - 1), x@) + vw.skip(j - 1));
        }
        j = j - 1;
    }
    proof {
        if j == 0 {
            assert(vw.take(0) =~= Seq::<ReminderView>::empty());
        } else {
            assert(vw.take(j as int).last() == vw[j - 1]);
        }
    }
    v.insert(j, x);
    assert(reminders_view(v@) =~= vw.take(j as int).push(x@) + vw.skip(j as int));
}

/// The reminders to schedule: one per note whose reminder is still ahead of
/// `now_local_ms`, with the title and body `payload_for` gives, ordered by
/// fire instant then note id, and at most `max` of them (the soonest).
pub fn desired_reminders<F: Fn(&Note, i64) -> (String, String)>(
    notes: &[Note],
    now_local_ms: i64,
    max: usize,
    payload_for: F,
) -> (r: Vec<ScheduledReminder>)
    requires
        forall|i: int| 0 <= i < notes@.len() ==> fire_at_fits(#[trigger] notes@[i]@),
        forall|n: Note, t: i64| call_requires(payload_for, (&n, t)),
    ensures
        exists|cands: Seq<ScheduledReminder>|
            {
                &&& upcoming_reminders(notes@, now_local_ms as int, payload_for, cands)
                &&& reminders_view(r@) == sort_reminders(reminders_view(cands)).take(
                    min_nat(max as int, cands.len() as int),
                )
            },
        r@.len() <= max,
        r@.len() <= notes@.len(),
        forall|i: int| 0 <= i < r@.len() ==> #[trigger] r@[i].fire_at_local_ms > now_local_ms,
        forall|i: int|
            0 <= i < r@.len() ==> exists|j: int|
                0 <= j < notes@.len() && notes@[j]@.id == (#[trigger] r@[i])@.note_id
                    && note_fire_at(notes@[j]@) == Some(r@[i].fire_at_local_ms as int),
        r@.len() < max ==> forall|j: int|
            0 <= j < notes@.len() && note_fire_at(#[trigger] notes@[j]@) is Some && note_fire_at(
                notes@[j]@,
            )->0 > now_local_ms ==> exists|i: int|
                0 <= i < r@.len() && r@[i]@.note_id == notes@[j]@.id
                    && r@[i].fire_at_local_ms == note_fire_at(notes@[j]@)->0,
        forall|i: int, j: int| 0 <= i < j < r@.len() ==> reminder_key_le(r@[i]@, r@[j]@),
{
    let mut cands: Vec<ScheduledReminder> = Vec::new();
    let mut i: usize = 0;
    while i < notes.len()
        invariant
            i <= notes.len(),
            forall|k: int| 0 <= k < notes@.len() ==> fire_at_fits(#[trigger] notes@[k]@),
            forall|n: Note, t: i64| call_requires(payload_for, (&n, t)),
            upcoming_reminders(notes@.take(i as int), now_local_ms as int, payload_for, cands@),
        decreases notes.len() - i,
    {
        let note = &notes[i];
        assert(notes@.take(i + 1).drop_last() =~= notes@.take(i as int));
        assert(notes@.take(i + 1).last() == *note);
        assert(fire_at_fits(notes@[i as int]@));
        let ghost before = cands@;
        match note.remind_before_hours {
            Some(hours) => {
                let fire = fire_at_local_ms(note.date_ms, hours);
                let (title, body) = payload_for(note, fire);
                if fire > now_local_ms {
                    let hash = payload_hash(title.as_str(), body.as_str());
                    let reminder = ScheduledReminder {
                        note_id: note.id.clone(),
                        fire_at_local_ms: fire,
                        payload_hash: hash,
                        title,
                        body,
                    };
                    cands.push(reminder);
                    assert(cands@.drop_last() =~= before);
                }
            },
            None => {},
        }
        i = i + 1;
    }
    assert(notes@.take(notes.len() as int) =~= notes@);
    let ghost cv = reminders_view(cands@);
    let mut sorted: Vec<ScheduledReminder> = Vec::new();
    let mut k: usize = 0;
    while k < cands.len()
        invariant
            k <= cands.len(),
            cv == reminders_view(cands@),
            reminders_view(sorted@) == sort_reminders(cv.take(k as int)),
        decreases cands.len() - k,
    {
        let c = cands[k].duplicate();
        assert(cv.take(k + 1).drop_last() =~= cv.take(k as int));
        assert(cv.take(k + 1).last() == c@);
        insert_by_key(&mut sorted, c);
        k = k + 1;
    }
    assert(cv.take(cands.len() as int) =~= cv);
    proof {
        lemma_sort_len(cv);
    }
    let ghost full = reminders_view(sorted@);
    sorted.truncate(max);
    assert(reminders_view(sorted@) =~= full.take(min_nat(max as int, cands@.len() as int)));
    proof {
        lemma_planned_reminders(notes@, now_local_ms as int, max as int, payload_for, cands@, sorted@);
    }
    sorted
}

/// What a plan of reminders holds: at most `max` reminders, each firing after
/// `now_local_ms` at the reminder instant of a note with its id, ordered by
/// (fire instant, note id); and when fewer than `max` were planned, every note
/// whose reminder fires after `now_local_ms` has its reminder in the plan.
pub proof fn lemma_planned_reminders<F: Fn(&Note, i64) -> (String, String)>(
    notes: Seq<Note>,
    now_local_ms: int,
    max: int,
    payload_for: F,
    cands: Seq<ScheduledReminder>,
    r: Seq<ScheduledReminder>,
)
    requires
        0 <= max,
        upcoming_reminders(notes, now_local_ms, payload_for, cands),
        reminders_view(r) == sort_reminders(reminders_view(cands)).take(
            min_nat(max, cands.len() as int),
        ),
    ensures
        r.len() <= max,
        r.len() <= notes.len(),
        forall|i: int| 0 <= i < r.len() ==> #[trigger] r[i].fire_at_local_ms > now_local_ms,
        forall|i: int|
            0 <= i < r.len() ==> exists|j: int|
                0 <= j < notes.len() && notes[j]@.id == (#[trigger] r[i])@.note_id
                    && note_fire_at(notes[j]@) == Some(r[i].fire_at_local_ms as int),
        r.len() < max ==> forall|j: int|
            0 <= j < notes.len() && note_fire_at(#[trigger] notes[j]@) is Some && note_fire_at(
                notes[j]@,
            )->0 > now_local_ms ==> exists|i: int|
                0 <= i < r.len() && r[i]@.note_id == notes[j]@.id
                    && r[i].fire_at_local_ms == note_fire_at(notes[j]@)->0,
        forall|i: int, j: int| 0 <= i < j < r.len() ==> reminder_key_le(r[i]@, r[j]@),
{
    lemma_plan_sources(notes, now_local_ms, max, payload_for, cands, r);
    lemma_plan_complete(notes, now_local_ms, max, payload_for, cands, r);
}

proof fn lemma_plan_sources<F: Fn(&Note, i64) -> (String, String)>(
    notes: Seq<Note>,
    now_local_ms: int,
    max: int,
    payload_for: F,
    cands: Seq<ScheduledReminder>,
    r: Seq<ScheduledReminder>,
)
    requires
        0 <= max,
        upcoming_reminders(notes, now_local_ms, payload_for, cands),
        reminders_view(r) == sort_reminders(reminders_view(cands)).take(
            min_nat(max, cands.len() as int),
        ),
    ensures
        r.len() <= max,
        r.len() <= notes.len(),
        forall|i: int| 0 <= i < r.len() ==> #[trigger] r[i].fire_at_local_ms > now_local_ms,
        forall|i: int|
            0 <= i < r.len() ==> exists|j: int|
                0 <= j < notes.len() && notes[j]@.id == (#[trigger] r[i])@.note_id
                    && note_fire_at(notes[j]@) == Some(r[i].fire_at_local_ms as int),
        forall|i: int, j: int| 0 <= i < j < r.len() ==> reminder_key_le(r[i]@, r[j]@),
{
    lemma_upcoming_ahead(notes, now_local_ms, payload_for, cands);
    lemma_upcoming_sources(notes, now_local_ms, payload_for, cands);
    lemma_take_sorted_from(cands, max, r);
    assert forall|i: int| 0 <= i < r.len() implies #[trigger] r[i].fire_at_local_ms
        > now_local_ms by {
        let k = choose|k: int| 0 <= k < cands.len() && r[i]@ == cands[k]@;
        assert(cands[k].fire_at_local_ms > now_local_ms);
    }
    assert forall|i: int| 0 <= i < r.len() implies exists|j: int|
        0 <= j < notes.len() && notes[j]@.id == (#[trigger] r[i])@.note_id
            && note_fire_at(notes[j]@) == Some(r[i].fire_at_local_ms as int) by {
        let k = choose|k: int| 0 <= k < cands.len() && r[i]@ == cands[k]@;
        assert(cands[k]@.note_id == r[i]@.note_id);
    }
}

proof fn lemma_plan_complete<F: Fn(&Note, i64) -> (String, String)>(
    notes: Seq<Note>,
    now_local_ms: int,
    max: int,
    payload_for: F,
    cands: Seq<ScheduledReminder>,
    r: Seq<ScheduledReminder>,
)
    requires
        0 <= max,
        upcoming_reminders(notes, now_local_ms, payload_for, cands),
        reminders_view(r) == sort_reminders(reminders_view(cands)).take(
            min_nat(max, cands.len() as int),
        ),
    ensures
        r.len() < max ==> forall|j: int|
            0 <= j < notes.len() && note_fire_at(#[trigger] notes[j]@) is Some && note_fire_at(
                notes[j]@,
            )->0 > now_local_ms ==> exists|i: int|
                0 <= i < r.len() && r[i]@.note_id == notes[j]@.id
                    && r[i].fire_at_local_ms == note_fire_at(notes[j]@)->0,
{
    lemma_upcoming_complete(notes, now_local_ms, payload_for, cands);
    lemma_take_sorted_complete(cands, max, r);
    if r.len() < max {
        assert forall|j: int|
            0 <= j < notes.len() && note_fire_at(#[trigger] notes[j]@) is Some && note_fire_at(
                notes[j]@,
            )->0 > now_local_ms implies exists|i: int|
            0 <= i < r.len() && r[i]@.note_id == notes[j]@.id
                && r[i].fire_at_local_ms == note_fire_at(notes[j]@)->0 by {
            let k = choose|k: int|
                0 <= k < cands.len() && cands[k]@.note_id == notes[j]@.id
                    && cands[k].fire_at_local_ms == note_fire_at(notes[j]@)->0;
            let i = choose|i: int| 0 <= i < r.len() && r[i]@ == cands[k]@;
        }
    }
}

/// The first reminders of the sorted `cands` are reminders of `cands`, in
/// (fire instant, note id) order.
proof fn lemma_take_sorted_from(cands: Seq<ScheduledReminder>, max: int, r: Seq<ScheduledReminder>)
    requires
        0 <= max,
        reminders_view(r) == sort_reminders(reminders_view(cands)).take(
            min_nat(max, cands.len() as int),
        ),
    ensures
        r.len() == min_nat(max, cands.len() as int),
        forall|i: int|
            0 <= i < r.len() ==> exists|k: int|
                0 <= k < cands.len() && (#[trigger] r[i])@ == cands[k]@,
        forall|i: int, j: int| 0 <= i < j < r.len() ==> reminder_key_le(r[i]@, r[j]@),
{
    broadcast use vstd::seq_lib::group_to_multiset_ensures;

    let cv = reminders_view(cands);
    let full = sort_reminders(cv);
    let rv = reminders_view(r);
    lemma_sort_reminders(cv);
    assert(rv.len() == r.len());
    assert forall|i: int| 0 <= i < r.len() implies exists|k: int|
        0 <= k < cands.len() && (#[trigger] r[i])@ == cands[k]@ by {
        assert(rv[i] == r[i]@);
        assert(full[i] == rv[i]);
        assert(full.to_multiset().count(full[i]) > 0);
        assert(cv.contains(full[i]));
        let k = choose|k: int| 0 <= k < cv.len() && cv[k] == full[i];
        assert(cv[k] == cands[k]@);
    }
    assert forall|i: int, j: int| 0 <= i < j < r.len() implies reminder_key_le(r[i]@, r[j]@) by {
        assert(rv[i] == r[i]@);
        assert(rv[j] == r[j]@);
    }
}

/// When fewer than `max` reminders are taken from the sorted `cands`, each of
/// `cands` is among them.
proof fn lemma_take_sorted_complete(
    cands: Seq<ScheduledReminder>,
    max: int,
    r: Seq<ScheduledReminder>,
)
    requires
        0 <= max,
        reminders_view(r) == sort_reminders(reminders_view(cands)).take(
            min_nat(max, cands.len() as int),
        ),
    ensures
        r.len() < max ==> forall|k: int|
            0 <= k < cands.len() ==> exists|i: int|
                0 <= i < r.len() && r[i]@ == (#[trigger] cands[k])@,
{
    broadcast use vstd::seq_lib::group_to_multiset_ensures;

    let cv = reminders_view(cands);
    let full = sort_reminders(cv);
    let rv = reminders_view(r);
    lemma_sort_reminders(cv);
    assert(rv.len() == r.len());
    if r.len() < max {
        assert(rv =~= full);
        assert forall|k: int| 0 <= k < cands.len() implies exists|i: int|
            0 <= i < r.len() && r[i]@ == (#[trigger] cands[k])@ by {
            assert(cv[k] == cands[k]@);
            assert(cv.to_multiset().count(cv[k]) > 0);
            assert(full.contains(cv[k]));
            let i = choose|i: int| 0 <= i < full.len() && full[i] == cv[k];
            assert(rv[i] == r[i]@);
        }
    }
}

proof fn lemma_upcoming_ahead<F: Fn(&Note, i64) -> (String, String)>(
    notes: Seq<Note>,
    now_local_ms: int,
    payload_for: F,
    cands: Seq<ScheduledReminder>,
)
    requires
        upcoming_reminders(notes, now_local_ms, payload_for, cands),
    ensures
        cands.len() <= notes.len(),
        forall|k: int| 0 <= k < cands.len() ==> #[trigger] cands[k].fire_at_local_ms > now_local_ms,
    decreases notes.len(),
{
    if notes.len() > 0 {
        let t = notes.drop_last();
        if is_upcoming(notes.last()@, now_local_ms) {
            let ct = cands.drop_last();
            lemma_upcoming_ahead(t, now_local_ms, payload_for, ct);
            assert forall|k: int| 0 <= k < cands.len() implies #[trigger] cands[k].fire_at_local_ms
                > now_local_ms by {
                if k < ct.len() {
                    assert(cands[k] == ct[k]);
                }
            }
        } else {
            lemma_upcoming_ahead(t, now_local_ms, payload_for, cands);
        }
    }
}

proof fn lemma_upcoming_sources<F: Fn(&Note, i64) -> (String, String)>(
    notes: Seq<Note>,
    now_local_ms: int,
    payload_for: F,
    cands: Seq<ScheduledReminder>,
)
    requires
        upcoming_reminders(notes, now_local_ms, payload_for, cands),
    ensures
        forall|k: int|
            0 <= k < cands.len() ==> exists|j: int|
                0 <= j < notes.len() && notes[j]@.id == (#[trigger] cands[k])@.note_id
                    && note_fire_at(notes[j]@) == Some(cands[k].fire_at_local_ms as int),
    decreases notes.len(),
{
    if notes.len() > 0 {
        let t = notes.drop_last();
        let l = notes.last();
        if is_upcoming(l@, now_local_ms) {
            let ct = cands.drop_last();
            lemma_upcoming_sources(t, now_local_ms, payload_for, ct);
            assert forall|k: int| 0 <= k < cands.len() implies exists|j: int|
                0 <= j < notes.len() && notes[j]@.id == (#[trigger] cands[k])@.note_id
                    && note_fire_at(notes[j]@) == Some(cands[k].fire_at_local_ms as int) by {
                if k < ct.len() {
                    assert(cands[k] == ct[k]);
                    let j = choose|j: int|
                        0 <= j < t.len() && t[j]@.id == ct[k]@.note_id
                            && note_fire_at(t[j]@) == Some(ct[k].fire_at_local_ms as int);
                    assert(notes[j] == t[j]);
                } else {
                    assert(notes[notes.len() - 1] == l);
                }
            }
        } else {
            lemma_upcoming_sources(t, now_local_ms, payload_for, cands);
            assert forall|k: int| 0 <= k < cands.len() implies exists|j: int|
                0 <= j < notes.len() && notes[j]@.id == (#[trigger] cands[k])@.note_id
                    && note_fire_at(notes[j]@) == Some(cands[k].fire_at_local_ms as int) by {
                let j = choose|j: int|
                    0 <= j < t.len() && t[j]@.id == cands[k]@.note_id
                        && note_fire_at(t[j]@) == Some(cands[k].fire_at_local_ms as int);
                assert(notes[j] == t[j]);
            }
        }
    }
}

proof fn lemma_upcoming_complete<F: Fn(&Note, i64) -> (String, String)>(
    notes: Seq<Note>,
    now_local_ms: int,
    payload_for: F,
    cands: Seq<ScheduledReminder>,
)
    requires
        upcoming_reminders(notes, now_local_ms, payload_for, cands),
    ensures
        forall|j: int|
            0 <= j < notes.len() && note_fire_at(#[trigger] notes[j]@) is Some && note_fire_at(
                notes[j]@,
            )->0 > now_local_ms ==> exists|k: int|
                0 <= k < cands.len() && cands[k]@.note_id == notes[j]@.id
                    && cands[k].fire_at_local_ms == note_fire_at(notes[j]@)->0,
    decreases notes.len(),
{
    if notes.len() > 0 {
        let t = notes.drop_last();
        let l = notes.last();
        let up = is_upcoming(l@, now_local_ms);
        let ct = if up { cands.drop_last() } else { cands };
        lemma_upcoming_complete(t, now_local_ms, payload_for, ct);
        assert forall|j: int|
            0 <= j < notes.len() && note_fire_at(#[trigger] notes[j]@) is Some && note_fire_at(
                notes[j]@,
            )->0 > now_local_ms implies exists|k: int|
            0 <= k < cands.len() && cands[k]@.note_id == notes[j]@.id
                && cands[k].fire_at_local_ms == note_fire_at(notes[j]@)->0 by {
            if j < t.len() {
                assert(notes[j] == t[j]);
                let k = choose|k: int|
                    0 <= k < ct.len() && ct[k]@.note_id == t[j]@.id
                        && ct[k].fire_at_local_ms == note_fire_at(t[j]@)->0;
                assert(cands[k] == ct[k]);
            } else {
                assert(notes[j] == l);
                assert(up);
                assert(cands[cands.len() - 1] == cands.last());
            }
        }
    }
}

proof fn lemma_insert_len(s: Seq<ReminderView>, x: ReminderView)
    ensures
        insert_sorted(s, x).len() == s.len() + 1,
    decreases s.len(),
{
    if s.len() > 0 && !reminder_key_le(s.last(), x) {
        lemma_insert_len(s.drop_last(), x);
    }
}

proof fn lemma_sort_len(s: Seq<ReminderView>)
    ensures
        sort_reminders(s).len() == s.len(),
    decreases s.len(),
{
    if s.len() > 0 {
        lemma_sort_len(s.drop_last());
        lemma_insert_len(sort_reminders(s.drop_last()), s.last());
    }
}


// ---------------------------------------------------------------------------
// Laws of reconciliation.
// ---------------------------------------------------------------------------
/// The record the store keeps once a reminder has been scheduled.
pub open spec fn record_of(r: ReminderView) -> RecordView {
    RecordView {
        note_id: r.note_id,
        fire_at_local_ms: r.fire_at_local_ms,
        payload_hash: r.payload_hash,
    }
}

pub open spec fn records_of(s: Seq<ReminderView>) -> Seq<RecordView> {
    s.map_values(|r: ReminderView| record_of(r))
}

/// The schedule a list of records describes: note id to fire instant and
/// payload hash (a later record for the same note wins).
pub open spec fn schedule_map(records: Seq<RecordView>) -> Map<Seq<char>, (i64, Seq<char>)>
    decreases records.len(),
{
    if records.len() == 0 {
        Map::empty()
    } else {
        let c = records.last();
        schedule_map(records.drop_last()).insert(c.note_id, (c.fire_at_local_ms, c.payload_hash))
    }
}

/// What performing an action does to the schedule.
pub open spec fn apply_action(m: Map<Seq<char>, (i64, Seq<char>)>, a: ActionView) -> Map<
    Seq<char>,
    (i64, Seq<char>),
> {
    match a {
        ActionView::Schedule(r) => m.insert(r.note_id, (r.fire_at_local_ms, r.payload_hash)),
        ActionView::Remove(id) => m.remove(id),
    }
}

/// Performing actions in order.
pub open spec fn apply_actions(m: Map<Seq<char>, (i64, Seq<char>)>, acts: Seq<ActionView>) -> Map<
    Seq<char>,
    (i64, Seq<char>),
>
    decreases acts.len(),
{
    if acts.len() == 0 {
        m
    } else {
        apply_action(apply_actions(m, acts.drop_last()), acts.last())
    }
}

pub open spec fn distinct_record_ids(s: Seq<RecordView>) -> bool {
    forall|i: int, j: int| 0 <= i < s.len() && 0 <= j < s.len() && i != j ==> s[i].note_id != s[j].note_id
}

pub open spec fn distinct_reminder_ids(s: Seq<ReminderView>) -> bool {
    forall|i: int, j: int| 0 <= i < s.len() && 0 <= j < s.len() && i != j ==> s[i].note_id != s[j].note_id
}

proof fn lemma_schedule_map_dom(records: Seq<RecordView>, id: Seq<char>)
    ensures
        schedule_map(records).dom().contains(id) <==> exists|i: int|
            0 <= i < records.len() && (#[trigger] records[i]).note_id == id,
    decreases records.len(),
{
    if records.len() > 0 {
        let prev = records.drop_last();
        lemma_schedule_map_dom(prev, id);
        if schedule_map(records).dom().contains(id) {
            if id != records.last().note_id {
                let i = choose|i: int| 0 <= i < prev.len() && (#[trigger] prev[i]).note_id == id;
                assert(records[i] == prev[i]);
            } else {
                assert(records[records.len() - 1].note_id == id);
            }
        }
        if exists|i: int| 0 <= i < records.len() && (#[trigger] records[i]).note_id == id {
            let i = choose|i: int| 0 <= i < records.len() && (#[trigger] records[i]).note_id == id;
            if i < records.len() - 1 {
                assert(prev[i] == records[i]);
            }
        }
    }
}

proof fn lemma_schedule_map_value(records: Seq<RecordView>, i: int)
    requires
        distinct_record_ids(records),
        0 <= i < records.len(),
    ensures
        schedule_map(records).dom().contains(records[i].note_id),
        schedule_map(records)[records[i].note_id] == (
            records[i].fire_at_local_ms,
            records[i].payload_hash,
        ),
    decreases records.len(),
{
    let prev = records.drop_last();
    if i < records.len() - 1 {
        assert(prev[i] == records[i]);
        assert forall|a: int, b: int|
            0 <= a < prev.len() && 0 <= b < prev.len() && a != b implies prev[a].note_id
            != prev[b].note_id by {
            assert(prev[a] == records[a] && prev[b] == records[b]);
        }
        lemma_schedule_map_value(prev, i);
        assert(records[i].note_id != records.last().note_id);
    }
}

proof fn lemma_apply_actions_concat(
    m: Map<Seq<char>, (i64, Seq<char>)>,
    a: Seq<ActionView>,
    b: Seq<ActionView>,
)
    ensures
        apply_actions(m, a + b) == apply_actions(apply_actions(m, a), b),
    decreases b.len(),
{
    if b.len() == 0 {
        assert(a + b =~= a);
    } else {
        assert((a + b).drop_last() =~= a + b.drop_last());
        lemma_apply_actions_concat(m, a, b.drop_last());
    }
}

proof fn lemma_records_of_index(s: Seq<ReminderView>, i: int)
    requires
        0 <= i < s.len(),
    ensures
        records_of(s).len() == s.len(),
        records_of(s)[i] == record_of(s[i]),
{
}

/// After the `Schedule` actions, every desired note has its desired entry
/// and every other note keeps its stored entry.
proof fn lemma_after_schedules(desired: Seq<ReminderView>, current: Seq<RecordView>)
    requires
        distinct_reminder_ids(desired),
        distinct_record_ids(current),
    ensures
        apply_actions(schedule_map(current), schedule_actions(desired, current)) == schedule_map(
            current,
        ).union_prefer_right(schedule_map(records_of(desired))),
    decreases desired.len(),
{
    let cm = schedule_map(current);
    if desired.len() == 0 {
        assert(records_of(desired) =~= Seq::<RecordView>::empty());
        assert(cm.union_prefer_right(Map::empty()) =~= cm);
    } else {
        let prev = desired.drop_last();
        let r = desired.last();
        assert forall|a: int, b: int|
            0 <= a < prev.len() && 0 <= b < prev.len() && a != b implies prev[a].note_id
            != prev[b].note_id by {
            assert(prev[a] == desired[a] && prev[b] == desired[b]);
        }
        lemma_after_schedules(prev, current);
        assert(records_of(desired).drop_last() =~= records_of(prev));
        assert(records_of(desired).last() == record_of(r));
        let pm = schedule_map(records_of(prev));
        let full = schedule_map(records_of(desired));
        assert(full == pm.insert(r.note_id, (r.fire_at_local_ms, r.payload_hash)));
        if already_scheduled(r, current) {
            let i = choose|i: int| 0 <= i < current.len() && record_matches(r, #[trigger] current[i]);
            lemma_schedule_map_value(current, i);
            lemma_schedule_map_dom(records_of(prev), r.note_id);
            if pm.dom().contains(r.note_id) {
                let j = choose|j: int|
                    0 <= j < records_of(prev).len() && (#[trigger] records_of(prev)[j]).note_id
                        == r.note_id;
                lemma_records_of_index(prev, j);
                assert(desired[j] == prev[j]);
                assert(desired[desired.len() - 1].note_id == r.note_id);
            }
            assert(schedule_actions(desired, current) == schedule_actions(prev, current));
            assert(cm.union_prefer_right(pm) =~= cm.union_prefer_right(full));
        } else {
            let acts = schedule_actions(desired, current);
            assert(acts == schedule_actions(prev, current).push(ActionView::Schedule(r)));
            assert(acts.drop_last() =~= schedule_actions(prev, current));
            assert(apply_actions(cm, acts) == apply_actions(cm, schedule_actions(prev, current)).insert(
                r.note_id,
                (r.fire_at_local_ms, r.payload_hash),
            ));
            assert(cm.union_prefer_right(pm).insert(r.note_id, (r.fire_at_local_ms, r.payload_hash))
                =~= cm.union_prefer_right(full));
        }
    }
}

/// After the `Remove` actions, the notes of stored records that no desired
/// reminder mentions are gone and nothing else changed.
proof fn lemma_after_removes(
    m: Map<Seq<char>, (i64, Seq<char>)>,
    current: Seq<RecordView>,
    desired: Seq<ReminderView>,
)
    ensures
        forall|id: Seq<char>|
            #![trigger apply_actions(m, remove_actions(current, desired)).dom().contains(id)]
            apply_actions(m, remove_actions(current, desired)).dom().contains(id) <==> (
            m.dom().contains(id) && !(exists|i: int|
                0 <= i < current.len() && (#[trigger] current[i]).note_id == id && !still_desired(
                    current[i],
                    desired,
                ))),
        forall|id: Seq<char>|
            #![trigger apply_actions(m, remove_actions(current, desired))[id]]
            apply_actions(m, remove_actions(current, desired)).dom().contains(id) ==> apply_actions(
                m,
                remove_actions(current, desired),
            )[id] == m[id],
    decreases current.len(),
{
    if current.len() > 0 {
        let prev = current.drop_last();
        lemma_after_removes(m, prev, desired);
        let c = current.last();
        let pm = apply_actions(m, remove_actions(prev, desired));
        let res = apply_actions(m, remove_actions(current, desired));
        if still_desired(c, desired) {
            assert(res == pm);
        } else {
            assert(remove_actions(current, desired).drop_last() == remove_actions(prev, desired));
            assert(res == pm.remove(c.note_id));
        }
        assert forall|id: Seq<char>| #[trigger] res.dom().contains(id) <==> (m.dom().contains(id)
            && !(exists|i: int|
            0 <= i < current.len() && (#[trigger] current[i]).note_id == id && !still_desired(
                current[i],
                desired,
            ))) by {
            if exists|i: int|
                0 <= i < current.len() && (#[trigger] current[i]).note_id == id && !still_desired(
                    current[i],
                    desired,
                ) {
                let i = choose|i: int|
                    0 <= i < current.len() && (#[trigger] current[i]).note_id == id
                        && !still_desired(current[i], desired);
                if i < current.len() - 1 {
                    assert(prev[i] == current[i]);
                }
            }
            if exists|i: int|
                0 <= i < prev.len() && (#[trigger] prev[i]).note_id == id && !still_desired(
                    prev[i],
                    desired,
                ) {
                let i = choose|i: int|
                    0 <= i < prev.len() && (#[trigger] prev[i]).note_id == id && !still_desired(
                        prev[i],
                        desired,
                    );
                assert(current[i] == prev[i]);
            }
        }
    }
}

/// Reconciliation converges: when each note appears at most once among the
/// desired reminders and among the stored records, performing the actions of
/// `diff` on the stored schedule leaves exactly the desired schedule.
pub proof fn lemma_diff_converges(desired: Seq<ReminderView>, current: Seq<RecordView>)
    requires
        distinct_reminder_ids(desired),
        distinct_record_ids(current),
    ensures
        apply_actions(schedule_map(current), diff_spec(desired, current)) == schedule_map(
            records_of(desired),
        ),
{
    let cm = schedule_map(current);
    let dm = schedule_map(records_of(desired));
    lemma_apply_actions_concat(
        cm,
        schedule_actions(desired, current),
        remove_actions(current, desired),
    );
    lemma_after_schedules(desired, current);
    let m1 = cm.union_prefer_right(dm);
    lemma_after_removes(m1, current, desired);
    let res = apply_actions(m1, remove_actions(current, desired));
    assert forall|id: Seq<char>| #[trigger] res.dom().contains(id) <==> dm.dom().contains(id) by {
        lemma_schedule_map_dom(records_of(desired), id);
        lemma_schedule_map_dom(current, id);
        if dm.dom().contains(id) {
            let j = choose|j: int|
                0 <= j < records_of(desired).len() && (#[trigger] records_of(desired)[j]).note_id
                    == id;
            lemma_records_of_index(desired, j);
            if exists|i: int|
                0 <= i < current.len() && (#[trigger] current[i]).note_id == id && !still_desired(
                    current[i],
                    desired,
                ) {
                let i = choose|i: int|
                    0 <= i < current.len() && (#[trigger] current[i]).note_id == id
                        && !still_desired(current[i], desired);
                assert(desired[j].note_id == current[i].note_id);
            }
        } else if cm.dom().contains(id) {
            let i = choose|i: int| 0 <= i < current.len() && (#[trigger] current[i]).note_id == id;
            if still_desired(current[i], desired) {
                let j = choose|j: int|
                    0 <= j < desired.len() && (#[trigger] desired[j]).note_id == current[i].note_id;
                lemma_records_of_index(desired, j);
                assert(records_of(desired)[j].note_id == id);
            }
        }
    }
    assert(res =~= dm);
}

/// Scheduling the desired reminders against their own records needs no
/// action at all.
pub proof fn lemma_diff_of_own_records_is_empty(desired: Seq<ReminderView>)
    ensures
        diff_spec(desired, records_of(desired)) == Seq::<ActionView>::empty(),
{
    let cur = records_of(desired);
    lemma_no_schedules(desired, cur, desired.len() as int);
    lemma_no_removes(cur, desired, cur.len() as int);
    assert(desired.take(desired.len() as int) =~= desired);
    assert(cur.take(cur.len() as int) =~= cur);
}

proof fn lemma_no_schedules(desired: Seq<ReminderView>, cur: Seq<RecordView>, k: int)
    requires
        cur == records_of(desired),
        0 <= k <= desired.len(),
    ensures
        schedule_actions(desired.take(k), cur) == Seq::<ActionView>::empty(),
    decreases k,
{
    if k > 0 {
        assert(desired.take(k).drop_last() =~= desired.take(k - 1));
        lemma_no_schedules(desired, cur, k - 1);
        lemma_records_of_index(desired, k - 1);
        assert(record_matches(desired.take(k).last(), cur[k - 1]));
    }
}

proof fn lemma_no_removes(cur: Seq<RecordView>, desired: Seq<ReminderView>, k: int)
    requires
        cur == records_of(desired),
        0 <= k <= cur.len(),
    ensures
        remove_actions(cur.take(k), desired) == Seq::<ActionView>::empty(),
    decreases k,
{
    if k > 0 {
        assert(cur.take(k).drop_last() =~= cur.take(k - 1));
        lemma_no_removes(cur, desired, k - 1);
        lemma_records_of_index(desired, k - 1);
        assert(desired[k - 1].note_id == cur.take(k).last().note_id);
    }
}


// ---------------------------------------------------------------------------
// Laws of the reminder order.
// ---------------------------------------------------------------------------
proof fn lemma_bytes_le_total(a: Seq<u8>, b: Seq<u8>)
    ensures
        bytes_le(a, b) || bytes_le(b, a),
        bytes_le(a, b) && bytes_le(b, a) ==> a == b,
    decreases a.len(),
{
    if a.len() > 0 && b.len() > 0 && a[0] == b[0] {
        lemma_bytes_le_total(a.skip(1), b.skip(1));
        if bytes_le(a, b) && bytes_le(b, a) {
            assert(a =~= seq![a[0]] + a.skip(1));
            assert(b =~= seq![b[0]] + b.skip(1));
        }
    } else if a.len() == 0 && b.len() == 0 {
        assert(a =~= b);
    }
}

proof fn lemma_bytes_le_trans(a: Seq<u8>, b: Seq<u8>, c: Seq<u8>)
    requires
        bytes_le(a, b),
        bytes_le(b, c),
    ensures
        bytes_le(a, c),
    decreases a.len(),
{
    if a.len() > 0 && b.len() > 0 && c.len() > 0 && a[0] == b[0] && b[0] == c[0] {
        lemma_bytes_le_trans(a.skip(1), b.skip(1), c.skip(1));
    }
}

proof fn lemma_key_le_total(a: ReminderView, b: ReminderView)
    ensures
        reminder_key_le(a, b) || reminder_key_le(b, a),
{
    lemma_bytes_le_total(vstd::utf8::encode_utf8(a.note_id), vstd::utf8::encode_utf8(b.note_id));
}

proof fn lemma_key_le_trans(a: ReminderView, b: ReminderView, c: ReminderView)
    requires
        reminder_key_le(a, b),
        reminder_key_le(b, c),
    ensures
        reminder_key_le(a, c),
{
    if a.fire_at_local_ms == b.fire_at_local_ms && b.fire_at_local_ms == c.fire_at_local_ms {
        lemma_bytes_le_trans(
            vstd::utf8::encode_utf8(a.note_id),
            vstd::utf8::encode_utf8(b.note_id),
            vstd::utf8::encode_utf8(c.note_id),
        );
    }
}

/// Reminders in order of (fire instant, note id).
pub open spec fn reminders_sorted(s: Seq<ReminderView>) -> bool {
    forall|i: int, j: int| 0 <= i < j < s.len() ==> reminder_key_le(s[i], s[j])
}

proof fn lemma_insert_sorted(s: Seq<ReminderView>, x: ReminderView)
    requires
        reminders_sorted(s),
    ensures
        reminders_sorted(insert_sorted(s, x)),
        insert_sorted(s, x).to_multiset() == s.to_multiset().insert(x),
        forall|k: int|
            0 <= k < insert_sorted(s, x).len() ==> #[trigger] insert_sorted(s, x)[k] == x
                || s.contains(insert_sorted(s, x)[k]),
    decreases s.len(),
{
    broadcast use vstd::seq_lib::group_to_multiset_ensures;

    lemma_insert_len(s, x);
    if s.len() == 0 {
        assert(seq![x] =~= Seq::<ReminderView>::empty().push(x));
    } else if reminder_key_le(s.last(), x) {
        let r = s.push(x);
        assert forall|i: int, j: int| 0 <= i < j < r.len() implies reminder_key_le(r[i], r[j]) by {
            if j == s.len() {
                if i < s.len() - 1 {
                    lemma_key_le_trans(s[i], s.last(), x);
                }
            }
        }
        assert forall|k: int| 0 <= k < r.len() implies #[trigger] r[k] == x || s.contains(r[k]) by {
            if k < s.len() {
                assert(s[k] == r[k]);
            }
        }
    } else {
        let t = s.drop_last();
        let l = s.last();
        assert(reminders_sorted(t));
        lemma_insert_sorted(t, x);
        let inner = insert_sorted(t, x);
        let r = inner.push(l);
        lemma_key_le_total(l, x);
        assert forall|i: int, j: int| 0 <= i < j < r.len() implies reminder_key_le(r[i], r[j]) by {
            if j == inner.len() {
                assert(r[i] == inner[i]);
                if inner[i] != x {
                    assert(t.contains(inner[i]));
                    let k = choose|k: int| 0 <= k < t.len() && t[k] == inner[i];
                    assert(s[k] == t[k]);
                }
            }
        }
        assert forall|k: int| 0 <= k < r.len() implies #[trigger] r[k] == x || s.contains(r[k]) by {
            if k < inner.len() {
                assert(r[k] == inner[k]);
                if inner[k] != x {
                    let m = choose|m: int| 0 <= m < t.len() && t[m] == inner[k];
                    assert(s[m] == t[m]);
                }
            } else {
                assert(s[s.len() - 1] == l);
            }
        }
        assert(s =~= t.push(l));
    }
}

/// Sorting gives the same reminders, in order of (fire instant, note id).
pub proof fn lemma_sort_reminders(s: Seq<ReminderView>)
    ensures
        reminders_sorted(sort_reminders(s)),
        sort_reminders(s).to_multiset() == s.to_multiset(),
        sort_reminders(s).len() == s.len(),
    decreases s.len(),
{
    broadcast use vstd::seq_lib::group_to_multiset_ensures;

    lemma_sort_len(s);
    if s.len() > 0 {
        lemma_sort_reminders(s.drop_last());
        lemma_insert_sorted(sort_reminders(s.drop_last()), s.last());
        assert(s =~= s.drop_last().push(s.last()));
    }
}

proof fn lemma_all_scheduled(desired: Seq<ReminderView>, cur: Seq<RecordView>)
    requires
        forall|k: int| 0 <= k < desired.len() ==> already_scheduled(#[trigger] desired[k], cur),
    ensures
        schedule_actions(desired, cur) == Seq::<ActionView>::empty(),
    decreases desired.len(),
{
    if desired.len() > 0 {
        let prev = desired.drop_last();
        assert forall|k: int| 0 <= k < prev.len() implies already_scheduled(#[trigger] prev[k], cur) by {
            assert(prev[k] == desired[k]);
        }
        lemma_all_scheduled(prev, cur);
        assert(already_scheduled(desired[desired.len() - 1], cur));
    }
}

proof fn lemma_all_still_desired(cur: Seq<RecordView>, desired: Seq<ReminderView>)
    requires
        forall|k: int| 0 <= k < cur.len() ==> still_desired(#[trigger] cur[k], desired),
    ensures
        remove_actions(cur, desired) == Seq::<ActionView>::empty(),
    decreases cur.len(),
{
    if cur.len() > 0 {
        let prev = cur.drop_last();
        assert forall|k: int| 0 <= k < prev.len() implies still_desired(#[trigger] prev[k], desired) by {
            assert(prev[k] == cur[k]);
        }
        lemma_all_still_desired(prev, desired);
        assert(still_desired(cur[cur.len() - 1], desired));
    }
}

/// One round of actions reaches the desired schedule: when note ids are
/// distinct among the desired reminders, the stored records, and the records
/// stored after the actions of `diff` were carried out, a second `diff` asks
/// for nothing.
pub proof fn lemma_second_diff_is_empty(
    desired: Seq<ReminderView>,
    current: Seq<RecordView>,
    after: Seq<RecordView>,
)
    requires
        distinct_reminder_ids(desired),
        distinct_record_ids(current),
        distinct_record_ids(after),
        schedule_map(after) == apply_actions(schedule_map(current), diff_spec(desired, current)),
    ensures
        diff_spec(desired, after) == Seq::<ActionView>::empty(),
{
    lemma_diff_converges(desired, current);
    let recs = records_of(desired);
    let dm = schedule_map(recs);
    assert(schedule_map(after) == dm);
    assert forall|a: int, b: int|
        0 <= a < recs.len() && 0 <= b < recs.len() && a != b implies recs[a].note_id
        != recs[b].note_id by {
        lemma_records_of_index(desired, a);
        lemma_records_of_index(desired, b);
    }
    assert forall|k: int| 0 <= k < desired.len() implies already_scheduled(
        #[trigger] desired[k],
        after,
    ) by {
        lemma_records_of_index(desired, k);
        lemma_schedule_map_value(recs, k);
        let id = desired[k].note_id;
        lemma_schedule_map_dom(after, id);
        let i = choose|i: int| 0 <= i < after.len() && (#[trigger] after[i]).note_id == id;
        lemma_schedule_map_value(after, i);
        assert(record_matches(desired[k], after[i]));
    }
    assert forall|k: int| 0 <= k < after.len() implies still_desired(#[trigger] after[k], desired) by {
        let id = after[k].note_id;
        lemma_schedule_map_dom(after, id);
        lemma_schedule_map_dom(recs, id);
        let j = choose|j: int| 0 <= j < recs.len() && (#[trigger] recs[j]).note_id == id;
        lemma_records_of_index(desired, j);
        assert(desired[j].note_id == id);
    }
    lemma_all_scheduled(desired, after);
    lemma_all_still_desired(after, desired);
}

} // verus!
