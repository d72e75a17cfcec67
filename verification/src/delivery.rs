//! Delivery of due reminders while the platform cannot schedule them: each
//! reminder is shown once per session.
use vstd::prelude::*;

use crate::date_math::LocalOffset;
use crate::labels::{absolute_time_spec, format_absolute, shown_title, shown_title_spec, AbsoluteTime};
use crate::note::{Note, NoteView};
use crate::notes::{keep_where, owned_notes_spec, NotesStore};
use crate::reminder_runs::should_deliver_due;
use crate::reminders::{
    can_check_due, due_check_fits, due_notes, due_notes_spec, due_view, notes_view,
    reminders_view, ReminderView, ScheduledReminder, CATCH_UP_WINDOW_MS,
};
use crate::text::str_eq;

verus! {

/// What identifies a delivery: the note and the instant the reminder fires.
pub open spec fn delivery_key(r: ReminderView) -> (Seq<char>, i64) {
    (r.note_id, r.fire_at_local_ms)
}

pub open spec fn keys_of(s: Seq<ReminderView>) -> Seq<(Seq<char>, i64)> {
    s.map_values(|r: ReminderView| delivery_key(r))
}

pub open spec fn delivered_view(s: Seq<(String, i64)>) -> Seq<(Seq<char>, i64)> {
    s.map_values(|p: (String, i64)| (p.0@, p.1))
}

/// The due reminders not delivered yet: those whose key was not delivered
/// before and did not come earlier in the list.
pub open spec fn fresh_spec(seen: Seq<(Seq<char>, i64)>, due: Seq<ReminderView>) -> Seq<ReminderView>
    decreases due.len(),
{
    if due.len() == 0 {
        Seq::empty()
    } else {
        let prev = fresh_spec(seen, due.drop_last());
        let key = delivery_key(due.last());
        if seen.contains(key) || keys_of(due.drop_last()).contains(key) {
            prev
        } else {
            prev.push(due.last())
        }
    }
}

fn delivered_contains(delivered: &Vec<(String, i64)>, note_id: &str, fire_at: i64) -> (r: bool)
    ensures
        r == delivered_view(delivered@).contains((note_id@, fire_at)),
{
    let ghost dv = delivered_view(delivered@);
    let mut i: usize = 0;
    while i < delivered.len()
        invariant
            i <= delivered.len(),
            dv == delivered_view(delivered@),
            forall|j: int| 0 <= j < i ==> dv[j] != (note_id@, fire_at),
        decreases delivered.len() - i,
    {
        assert(dv[i as int] == (delivered@[i as int].0@, delivered@[i as int].1));
        if delivered[i].1 == fire_at && str_eq(delivered[i].0.as_str(), note_id) {
            assert(dv[i as int] == (note_id@, fire_at));
            return true;
        }
        i = i + 1;
    }
    false
}

/// Picks the due reminders not delivered yet and notes them as delivered.
pub fn fresh_reminders(delivered: &mut Vec<(String, i64)>, due: Vec<ScheduledReminder>) -> (r: Vec<
    ScheduledReminder,
>)
    ensures
        reminders_view(r@) == fresh_spec(delivered_view(old(delivered)@), reminders_view(due@)),
        delivered_view(final(delivered)@) == delivered_view(old(delivered)@) + keys_of(
            reminders_view(r@),
        ),
        distinct_keys(delivered_view(old(delivered)@)) ==> distinct_keys(
            delivered_view(final(delivered)@),
        ),
{
    let ghost seen = delivered_view(delivered@);
    let ghost dv = reminders_view(due@);
    let mut fresh: Vec<ScheduledReminder> = Vec::new();
    let mut i: usize = 0;
    while i < due.len()
        invariant
            i <= due.len(),
            dv == reminders_view(due@),
            reminders_view(fresh@) == fresh_spec(seen, dv.take(i as int)),
            delivered_view(delivered@) == seen + keys_of(reminders_view(fresh@)),
        decreases due.len() - i,
    {
        let reminder = &due[i];
        assert(dv.take(i + 1).drop_last() =~= dv.take(i as int));
        assert(dv.take(i + 1).last() == reminder@);
        proof {
            lemma_fresh_keys(seen, dv.take(i as int));
        }
        let known = delivered_contains(delivered, reminder.note_id.as_str(), reminder.fire_at_local_ms);
        proof {
            lemma_concat_contains(seen, keys_of(reminders_view(fresh@)), delivery_key(reminder@));
        }
        assert(known == (seen.contains(delivery_key(reminder@)) || keys_of(
            dv.take(i as int),
        ).contains(delivery_key(reminder@))));
        if !known {
            let ghost before_fresh = reminders_view(fresh@);
            let ghost before_delivered = delivered_view(delivered@);
            fresh.push(reminder.duplicate());
            delivered.push((reminder.note_id.clone(), reminder.fire_at_local_ms));
            assert(reminders_view(fresh@) =~= before_fresh.push(reminder@));
            assert(delivered_view(delivered@) =~= before_delivered.push(delivery_key(reminder@)));
            assert(keys_of(reminders_view(fresh@)) =~= keys_of(before_fresh).push(
                delivery_key(reminder@),
            ));
            assert(delivered_view(delivered@) =~= seen + keys_of(reminders_view(fresh@)));
        }
        i = i + 1;
    }
    assert(dv.take(due.len() as int) =~= dv);
    proof {
        if distinct_keys(seen) {
            lemma_fresh_distinct(seen, dv);
        }
    }
    fresh
}

proof fn lemma_keys_push(s: Seq<ReminderView>, x: ReminderView, k: (Seq<char>, i64))
    ensures
        keys_of(s.push(x)).contains(k) <==> (keys_of(s).contains(k) || k == delivery_key(x)),
{
    let long = keys_of(s.push(x));
    assert(long =~= keys_of(s).push(delivery_key(x)));
    if keys_of(s).contains(k) {
        let j = choose|j: int| 0 <= j < keys_of(s).len() && keys_of(s)[j] == k;
        assert(long[j] == k);
    }
    if k == delivery_key(x) {
        assert(long[s.len() as int] == k);
    }
    if long.contains(k) {
        let j = choose|j: int| 0 <= j < long.len() && long[j] == k;
        if j < s.len() {
            assert(keys_of(s)[j] == k);
        }
    }
}

proof fn lemma_concat_contains(a: Seq<(Seq<char>, i64)>, b: Seq<(Seq<char>, i64)>, k: (Seq<char>, i64))
    ensures
        (a + b).contains(k) <==> (a.contains(k) || b.contains(k)),
{
    if a.contains(k) {
        let j = choose|j: int| 0 <= j < a.len() && a[j] == k;
        assert((a + b)[j] == k);
    }
    if b.contains(k) {
        let j = choose|j: int| 0 <= j < b.len() && b[j] == k;
        assert((a + b)[a.len() + j] == k);
    }
    if (a + b).contains(k) {
        let j = choose|j: int| 0 <= j < (a + b).len() && (a + b)[j] == k;
        if j < a.len() {
            assert(a[j] == k);
        } else {
            assert(b[j - a.len()] == k);
        }
    }
}

/// A key is among those delivered before or those of the due list exactly
/// when it is among those delivered before or those picked as fresh.
proof fn lemma_fresh_keys(seen: Seq<(Seq<char>, i64)>, due: Seq<ReminderView>)
    ensures
        forall|k: (Seq<char>, i64)|
            (seen.contains(k) || keys_of(due).contains(k)) <==> (seen.contains(k) || keys_of(
                fresh_spec(seen, due),
            ).contains(k)),
    decreases due.len(),
{
    if due.len() > 0 {
        let prev_due = due.drop_last();
        lemma_fresh_keys(seen, prev_due);
        let prev = fresh_spec(seen, prev_due);
        let x = due.last();
        assert(prev_due.push(x) =~= due);
        assert forall|k: (Seq<char>, i64)|
            (seen.contains(k) || keys_of(due).contains(k)) <==> (seen.contains(k) || keys_of(
                fresh_spec(seen, due),
            ).contains(k)) by {
            lemma_keys_push(prev_due, x, k);
            lemma_keys_push(prev, x, k);
            lemma_keys_push(prev_due, x, delivery_key(x));
        }
    }
}

proof fn lemma_nothing_fresh(seen: Seq<(Seq<char>, i64)>, due: Seq<ReminderView>)
    requires
        forall|j: int| 0 <= j < due.len() ==> seen.contains(delivery_key(#[trigger] due[j])),
    ensures
        fresh_spec(seen, due) == Seq::<ReminderView>::empty(),
    decreases due.len(),
{
    if due.len() > 0 {
        assert(seen.contains(delivery_key(due[due.len() - 1])));
        lemma_nothing_fresh(seen, due.drop_last());
    }
}

/// A reminder is delivered at most once: handing the same due reminders in
/// again, after the fresh ones were noted as delivered, delivers nothing.
pub proof fn lemma_delivered_once(seen: Seq<(Seq<char>, i64)>, due: Seq<ReminderView>)
    ensures
        fresh_spec(seen + keys_of(fresh_spec(seen, due)), due) == Seq::<ReminderView>::empty(),
{
    let after = seen + keys_of(fresh_spec(seen, due));
    lemma_fresh_keys(seen, due);
    assert forall|j: int| 0 <= j < due.len() implies after.contains(delivery_key(#[trigger] due[j])) by {
        let k = delivery_key(due[j]);
        assert(keys_of(due)[j] == k);
        if seen.contains(k) {
            let t = choose|t: int| 0 <= t < seen.len() && seen[t] == k;
            assert(after[t] == k);
        } else {
            let f = keys_of(fresh_spec(seen, due));
            let t = choose|t: int| 0 <= t < f.len() && f[t] == k;
            assert(after[seen.len() + t] == k);
        }
    }
    lemma_nothing_fresh(after, due);
}

/// No key occurs twice.
pub open spec fn distinct_keys(s: Seq<(Seq<char>, i64)>) -> bool {
    forall|i: int, j: int| 0 <= i < s.len() && 0 <= j < s.len() && i != j ==> s[i] != s[j]
}

proof fn lemma_fresh_within_due(seen: Seq<(Seq<char>, i64)>, due: Seq<ReminderView>, k: (Seq<char>, i64))
    ensures
        keys_of(fresh_spec(seen, due)).contains(k) ==> keys_of(due).contains(k),
    decreases due.len(),
{
    if due.len() > 0 {
        let prev_due = due.drop_last();
        let x = due.last();
        lemma_fresh_within_due(seen, prev_due, k);
        assert(prev_due.push(x) =~= due);
        lemma_keys_push(prev_due, x, k);
        lemma_keys_push(fresh_spec(seen, prev_due), x, k);
    }
}

proof fn lemma_push_distinct(s: Seq<(Seq<char>, i64)>, k: (Seq<char>, i64))
    requires
        distinct_keys(s),
        !s.contains(k),
    ensures
        distinct_keys(s.push(k)),
{
    let t = s.push(k);
    assert forall|i: int, j: int| 0 <= i < t.len() && 0 <= j < t.len() && i != j implies t[i]
        != t[j] by {
        if i < s.len() && j < s.len() {
            assert(t[i] == s[i] && t[j] == s[j]);
        } else if i < s.len() {
            assert(t[i] == s[i]);
        } else if j < s.len() {
            assert(t[j] == s[j]);
        }
    }
}

/// The keys delivered before and those picked as fresh, together, hold no
/// key twice when those delivered before held none twice.
proof fn lemma_fresh_distinct(seen: Seq<(Seq<char>, i64)>, due: Seq<ReminderView>)
    requires
        distinct_keys(seen),
    ensures
        distinct_keys(seen + keys_of(fresh_spec(seen, due))),
    decreases due.len(),
{
    if due.len() == 0 {
        assert(seen + keys_of(fresh_spec(seen, due)) =~= seen);
    } else {
        let prev_due = due.drop_last();
        let x = due.last();
        let prev = fresh_spec(seen, prev_due);
        lemma_fresh_distinct(seen, prev_due);
        let key = delivery_key(x);
        if !(seen.contains(key) || keys_of(prev_due).contains(key)) {
            assert(keys_of(prev.push(x)) =~= keys_of(prev).push(key));
            assert(seen + keys_of(prev.push(x)) =~= (seen + keys_of(prev)).push(key));
            lemma_fresh_within_due(seen, prev_due, key);
            lemma_concat_contains(seen, keys_of(prev), key);
            lemma_push_distinct(seen + keys_of(prev), key);
        }
    }
}

/// The log of delivered reminders after a run of checks, one list of due
/// reminders per check, each check adding the keys of what it delivered.
pub open spec fn log_after(seen: Seq<(Seq<char>, i64)>, dues: Seq<Seq<ReminderView>>) -> Seq<
    (Seq<char>, i64),
>
    decreases dues.len(),
{
    if dues.len() == 0 {
        seen
    } else {
        let before = log_after(seen, dues.drop_last());
        before + keys_of(fresh_spec(before, dues.last()))
    }
}

/// Over the whole life of the delivery loop, starting from nothing
/// delivered, no reminder (note and fire instant) is delivered twice.
pub proof fn lemma_delivered_once_over_lifetime(dues: Seq<Seq<ReminderView>>)
    ensures
        distinct_keys(log_after(Seq::empty(), dues)),
    decreases dues.len(),
{
    if dues.len() > 0 {
        lemma_delivered_once_over_lifetime(dues.drop_last());
        lemma_fresh_distinct(log_after(Seq::empty(), dues.drop_last()), dues.last());
    }
}

/// Notes whose reminder can be checked for lateness within `i64`.
pub open spec fn checkable(now_utc_ms: int, local_offset_ms: int) -> spec_fn(NoteView) -> bool {
    |n: NoteView| due_check_fits(n, now_utc_ms, local_offset_ms)
}

/// The reminder to show for a due note firing at `fire_at`: the note's id,
/// the fire instant and the note's title.
pub open spec fn due_reminder_of(due: (NoteView, int)) -> ReminderView {
    ReminderView {
        note_id: due.0.id,
        fire_at_local_ms: due.1 as i64,
        payload_hash: Seq::empty(),
        title: due.0.title,
        body: Seq::empty(),
    }
}

/// The reminders due at `now_utc_ms` among `notes`, in note order: those
/// that fired within the catch-up window (notes whose check would leave
/// `i64` are passed over).
pub open spec fn due_reminders_spec(notes: Seq<NoteView>, now_utc_ms: int, local_offset_ms: int) -> Seq<
    ReminderView,
> {
    due_notes_spec(
        keep_where(notes, checkable(now_utc_ms, local_offset_ms)),
        now_utc_ms,
        local_offset_ms,
        CATCH_UP_WINDOW_MS as int,
    ).map_values(|d: (NoteView, int)| due_reminder_of(d))
}

/// One check of the delivery loop at `now_utc_ms`: when the app delivers
/// reminders itself (no background delivery, the local offset known, a user
/// signed in), the user's due reminders not delivered before are returned
/// and noted as delivered; otherwise nothing is.
pub fn deliver_due(
    delivered: &mut Vec<(String, i64)>,
    store: &NotesStore,
    offset: &LocalOffset,
    background: bool,
    now_utc_ms: i64,
) -> (r: Vec<ScheduledReminder>)
    ensures
        (!background && offset.ready && store.user_id@.len() != 0) ==> {
            &&& reminders_view(r@) == fresh_spec(
                delivered_view(old(delivered)@),
                due_reminders_spec(
                    owned_notes_spec(notes_view(store.notes@), store.user_id@),
                    now_utc_ms as int,
                    offset.offset_ms as int,
                ),
            )
            &&& delivered_view(final(delivered)@) == delivered_view(old(delivered)@) + keys_of(
                reminders_view(r@),
            )
        },
        !(!background && offset.ready && store.user_id@.len() != 0) ==> r@.len() == 0
            && final(delivered)@ == old(delivered)@,
        distinct_keys(delivered_view(old(delivered)@)) ==> distinct_keys(
            delivered_view(final(delivered)@),
        ),
{
    if !should_deliver_due(background, offset.ready, store.user_id.as_str()) {
        return Vec::new();
    }
    let offset_ms = offset.offset_ms;
    let owned = store.peek_notes();
    let ghost ov = notes_view(owned@);
    let ghost p = checkable(now_utc_ms as int, offset_ms as int);
    let mut checkable_notes: Vec<Note> = Vec::new();
    let mut i: usize = 0;
    while i < owned.len()
        invariant
            i <= owned.len(),
            ov == notes_view(owned@),
            p == checkable(now_utc_ms as int, offset_ms as int),
            notes_view(checkable_notes@) == keep_where(ov.take(i as int), p),
            forall|k: int|
                0 <= k < checkable_notes@.len() ==> due_check_fits(
                    #[trigger] checkable_notes@[k]@,
                    now_utc_ms as int,
                    offset_ms as int,
                ),
        decreases owned.len() - i,
    {
        let note = &owned[i];
        assert(ov.take(i + 1).drop_last() =~= ov.take(i as int));
        assert(ov.take(i + 1).last() == note@);
        if can_check_due(note, now_utc_ms, offset_ms) {
            let ghost before = checkable_notes@;
            checkable_notes.push(note.duplicate());
            assert(notes_view(checkable_notes@) =~= keep_where(ov.take(i + 1), p));
            assert forall|k: int| 0 <= k < checkable_notes@.len() implies due_check_fits(
                #[trigger] checkable_notes@[k]@,
                now_utc_ms as int,
                offset_ms as int,
            ) by {
                if k < before.len() {
                    assert(checkable_notes@[k] == before[k]);
                }
            }
        }
        i = i + 1;
    }
    assert(ov.take(owned.len() as int) =~= ov);
    let found = due_notes(checkable_notes.as_slice(), now_utc_ms, offset_ms, CATCH_UP_WINDOW_MS);
    let ghost fv = due_view(found@);
    let ghost want = fv.map_values(|d: (NoteView, int)| due_reminder_of(d));
    let mut due: Vec<ScheduledReminder> = Vec::new();
    let mut j: usize = 0;
    while j < found.len()
        invariant
            j <= found.len(),
            fv == due_view(found@),
            want == fv.map_values(|d: (NoteView, int)| due_reminder_of(d)),
            reminders_view(due@) == want.take(j as int),
        decreases found.len() - j,
    {
        let reminder = ScheduledReminder {
            note_id: found[j].0.id.clone(),
            fire_at_local_ms: found[j].1,
            payload_hash: String::new(),
            title: found[j].0.title.clone(),
            body: String::new(),
        };
        assert(fv[j as int] == (found@[j as int].0@, found@[j as int].1 as int));
        assert(reminder@ == want[j as int]);
        let ghost before = due@;
        assert(reminders_view(before).len() == before.len());
        assert(want.take(j as int).len() == j);
        due.push(reminder);
        assert(due@ == before.push(reminder));
        assert(reminders_view(due@) =~= want.take(j + 1));
        j = j + 1;
    }
    assert(want.take(found.len() as int) =~= want);
    fresh_reminders(delivered, due)
}

/// What the notification of a delivered reminder shows: its title trimmed
/// (`None` when blank, for the interface's untitled text) and the instant it
/// fires, as the interface writes instants out.
pub fn notification_parts(reminder: &ScheduledReminder) -> (r: (Option<String>, AbsoluteTime))
    ensures
        match shown_title_spec(reminder.title@) {
            Some(t) => r.0 matches Some(s) && s@ == t,
            None => r.0 is None,
        },
        r.1 == absolute_time_spec(reminder.fire_at_local_ms as int),
{
    (shown_title(reminder.title.as_str()), format_absolute(reminder.fire_at_local_ms))
}

} // verus!
