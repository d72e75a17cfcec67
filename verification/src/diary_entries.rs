//! The diary's list of entries for the period under the cursor.
use vstd::prelude::*;

use crate::clock::local_now_ms;
use crate::date_math::{
    civil_days, civil_from_days, date_ms_to_time_string, date_ms_to_ymdhm, date_of_day, day_key,
    day_of_ms, days_from_civil, days_in_month, lemma_date_of_day, lemma_day_of_ms_in_range,
    lemma_year_in_range, month_length, time_string_spec, weekday_index, weekday_spec, LocalOffset,
};
use crate::diary::{
    diary_filter, passes_diary_filter, period_label, week_start, CalendarViewMode, DiaryUiState,
    PeriodLabel, period_label_spec,
};
use crate::note::{clone_opt_string, opt_str_view, Note, NoteView};
use crate::notes::{
    find_folder, find_tag, folder_name_in, lemma_keep_where_contains, folders_view, keep_where, note_inserted,
    owned_folders_spec, owned_notes_spec, owned_tags_spec, tag_name_in, tags_view, Folder,
    FolderByOrder, NotesStore, Tag, TagByOrder,
};
use crate::reminders::notes_view;
use crate::snippet::{snippet, snippet_spec};
use crate::sorting::{lemma_sort_ordered, sort_in_order, sort_ordered, total_preorder, views, Order};
use crate::text::str_eq;

verus! {

/// Newest diary date first.
pub struct NewestFirst;

impl Order<Note> for NewestFirst {
    open spec fn le(a: NoteView, b: NoteView) -> bool {
        a.date_ms >= b.date_ms
    }

    fn exec_le(a: &Note, b: &Note) -> (r: bool) {
        a.date_ms >= b.date_ms
    }
}

/// The heading over the entries of one day.
#[derive(Debug, Clone, Copy, PartialEq, Eq, Structural)]
pub struct DayHeader {
    pub is_today: bool,
    /// 0 = Monday .. 6 = Sunday.
    pub weekday: u32,
    pub day_of_month: u32,
    pub month: u32,
}

/// One entry of the diary list.
pub struct DiaryEntryRow {
    pub id: String,
    /// The note's title; empty for an untitled note.
    pub title: String,
    pub snippet: String,
    /// `HH:MM` of the note's date.
    pub time_label: String,
    /// The name of the note's folder; empty without one.
    pub folder_name: String,
    pub has_reminder: bool,
    pub is_active: bool,
    pub show_day_header: bool,
    pub day_header: DayHeader,
}

pub struct EntryRowView {
    pub id: Seq<char>,
    pub title: Seq<char>,
    pub snippet: Seq<char>,
    pub time_label: Seq<char>,
    pub folder_name: Seq<char>,
    pub has_reminder: bool,
    pub is_active: bool,
    pub show_day_header: bool,
    pub day_header: DayHeader,
}

impl View for DiaryEntryRow {
    type V = EntryRowView;

    open spec fn view(&self) -> EntryRowView {
        EntryRowView {
            id: self.id@,
            title: self.title@,
            snippet: self.snippet@,
            time_label: self.time_label@,
            folder_name: self.folder_name@,
            has_reminder: self.has_reminder,
            is_active: self.is_active,
            show_day_header: self.show_day_header,
            day_header: self.day_header,
        }
    }
}

pub open spec fn rows_view(s: Seq<DiaryEntryRow>) -> Seq<EntryRowView> {
    s.map_values(|r: DiaryEntryRow| r@)
}

/// What the summary of the diary's narrowing names: the folder (`None` for
/// all folders) and the tag (`None` for no tag); a name is empty when the
/// folder or tag is not the user's.
pub struct FilterSummary {
    pub folder_name: Option<String>,
    pub tag_name: Option<String>,
}

/// The first and last day of the period of `mode` containing `cursor_ms`.
pub open spec fn period_bounds_spec(mode: CalendarViewMode, cursor_ms: int) -> (int, int) {
    let cursor = day_of_ms(cursor_ms);
    match mode {
        CalendarViewMode::Day => (cursor, cursor),
        CalendarViewMode::Week => (week_start(cursor_ms), week_start(cursor_ms) + 6),
        CalendarViewMode::Month => {
            let date = date_of_day(cursor);
            let first = civil_days(date.0, date.1, 1);
            (first, first + month_length(date.0, date.1) - 1)
        },
    }
}

/// A note dated within the days `start..=end`, in the folder and with the
/// tag the diary is narrowed to.
pub open spec fn entry_filter(
    start: int,
    end: int,
    folder: Option<Seq<char>>,
    tag: Option<Seq<char>>,
) -> spec_fn(NoteView) -> bool {
    |n: NoteView|
        start <= day_of_ms(n.date_ms as int) <= end && (diary_filter(folder, tag))(n)
}

/// The notes the diary lists, newest first (ties in store order).
pub open spec fn entry_notes(store: &NotesStore, ui: &DiaryUiState) -> Seq<NoteView> {
    let bounds = period_bounds_spec(ui.view_mode, ui.cursor_date_ms as int);
    sort_ordered::<Note, NewestFirst>(
        keep_where(
            owned_notes_spec(notes_view(store.notes@), store.user_id@),
            entry_filter(
                bounds.0,
                bounds.1,
                opt_str_view(ui.filter_folder),
                opt_str_view(ui.filter_tag),
            ),
        ),
    )
}

/// The row of the `i`th listed note.
pub open spec fn entry_row_spec(
    notes: Seq<NoteView>,
    i: int,
    folders: Seq<crate::notes::FolderView>,
    mode: CalendarViewMode,
    active: Option<Seq<char>>,
    today: int,
) -> EntryRowView {
    let n = notes[i];
    let day = day_of_ms(n.date_ms as int);
    EntryRowView {
        id: n.id,
        title: n.title,
        snippet: snippet_spec(n.content),
        time_label: time_string_spec(n.date_ms as int),
        folder_name: match n.folder_id {
            Some(f) => match folder_name_in(folders, f) {
                Some(name) => name,
                None => Seq::empty(),
            },
            None => Seq::empty(),
        },
        has_reminder: n.remind_before_hours is Some,
        is_active: active == Some(n.id),
        show_day_header: mode != CalendarViewMode::Day && (i == 0 || day_of_ms(
            notes[i - 1].date_ms as int,
        ) != day),
        day_header: DayHeader {
            is_today: day == today,
            weekday: weekday_spec(day) as u32,
            day_of_month: date_of_day(day).2 as u32,
            month: date_of_day(day).1 as u32,
        },
    }
}

/// The rows of the diary list, with `today` as today.
pub open spec fn entries_spec(
    store: &NotesStore,
    ui: &DiaryUiState,
    active: Option<Seq<char>>,
    today: int,
) -> Seq<EntryRowView> {
    let notes = entry_notes(store, ui);
    let folders = sort_ordered::<Folder, FolderByOrder>(
        owned_folders_spec(folders_view(store.folders@), store.user_id@),
    );
    Seq::new(notes.len(), |i: int| entry_row_spec(notes, i, folders, ui.view_mode, active, today))
}

pub open spec fn opt_text(o: Option<&str>) -> Option<Seq<char>> {
    match o {
        Some(s) => Some(s@),
        None => None,
    }
}

/// The diary's list of entries over the notes store.
pub struct DiaryEntryListState {
    pub store: NotesStore,
    pub diary_ui: DiaryUiState,
    pub is_mobile: bool,
    pub ready: bool,
}

/// Only the diary's view state changed, as described by the clauses beside
/// it.
pub open spec fn same_list_context(a: &DiaryEntryListState, b: &DiaryEntryListState) -> bool {
    &&& a.store == b.store
    &&& a.is_mobile == b.is_mobile
    &&& a.ready == b.ready
    &&& a.diary_ui.view_mode == b.diary_ui.view_mode
    &&& a.diary_ui.cursor_date_ms == b.diary_ui.cursor_date_ms
    &&& a.diary_ui.calendar_open == b.diary_ui.calendar_open
}

impl DiaryEntryListState {
    /// The label of the period the list shows.
    pub fn period_label(&self) -> (r: PeriodLabel)
        ensures
            r == period_label_spec(self.diary_ui.view_mode, self.diary_ui.cursor_date_ms as int),
    {
        period_label(self.diary_ui.view_mode, self.diary_ui.cursor_date_ms)
    }

    /// What the summary of the narrowing names.
    pub fn filter_summary(&self) -> (r: FilterSummary)
        ensures
            match self.diary_ui.filter_folder {
                Some(f) => r.folder_name matches Some(name) && name@ == match folder_name_in(
                    sort_ordered::<Folder, FolderByOrder>(
                        owned_folders_spec(folders_view(self.store.folders@), self.store.user_id@),
                    ),
                    f@,
                ) {
                    Some(x) => x,
                    None => Seq::<char>::empty(),
                },
                None => r.folder_name is None,
            },
            match self.diary_ui.filter_tag {
                Some(t) => r.tag_name matches Some(name) && name@ == match tag_name_in(
                    sort_ordered::<Tag, TagByOrder>(
                        owned_tags_spec(tags_view(self.store.tags@), self.store.user_id@),
                    ),
                    t@,
                ) {
                    Some(x) => x,
                    None => Seq::<char>::empty(),
                },
                None => r.tag_name is None,
            },
    {
        let folder_name = match &self.diary_ui.filter_folder {
            Some(folder_id) => {
                let folders = self.store.folders();
                match find_folder(&folders, folder_id.as_str()) {
                    Some(k) => {
                        assert(folders_view(folders@)[k as int].name == folders@[k as int].name@);
                        Some(folders[k].name.clone())
                    },
                    None => Some(String::new()),
                }
            },
            None => None,
        };
        let tag_name = match &self.diary_ui.filter_tag {
            Some(tag_id) => {
                let tags = self.store.tags();
                match find_tag(&tags, tag_id.as_str()) {
                    Some(k) => {
                        assert(tags_view(tags@)[k as int].name == tags@[k as int].name@);
                        Some(tags[k].name.clone())
                    },
                    None => Some(String::new()),
                }
            },
            None => None,
        };
        FilterSummary { folder_name, tag_name }
    }

    /// The user's folders, by their order field.
    pub fn folders(&self) -> (r: Vec<Folder>)
        ensures
            folders_view(r@) == sort_ordered::<Folder, FolderByOrder>(
                owned_folders_spec(folders_view(self.store.folders@), self.store.user_id@),
            ),
    {
        self.store.folders()
    }

    /// The user's tags, by their order field.
    pub fn tags(&self) -> (r: Vec<Tag>)
        ensures
            tags_view(r@) == sort_ordered::<Tag, TagByOrder>(
                owned_tags_spec(tags_view(self.store.tags@), self.store.user_id@),
            ),
    {
        self.store.tags()
    }

    pub fn filter_folder(&self) -> (r: Option<String>)
        ensures
            opt_str_view(r) == opt_str_view(self.diary_ui.filter_folder),
    {
        clone_opt_string(&self.diary_ui.filter_folder)
    }

    pub fn filter_tag(&self) -> (r: Option<String>)
        ensures
            opt_str_view(r) == opt_str_view(self.diary_ui.filter_tag),
    {
        clone_opt_string(&self.diary_ui.filter_tag)
    }

    pub fn filter_open(&self) -> (r: bool)
        ensures
            r == self.diary_ui.filter_open,
    {
        self.diary_ui.filter_open
    }

    pub fn set_filter_open(&mut self, open: bool)
        ensures
            final(self).diary_ui.filter_open == open,
            final(self).diary_ui.filter_folder == old(self).diary_ui.filter_folder,
            final(self).diary_ui.filter_tag == old(self).diary_ui.filter_tag,
            same_list_context(final(self), old(self)),
    {
        self.diary_ui.filter_open = open;
    }

    /// Narrows the diary to a folder, or to none.
    pub fn set_filter_folder(&mut self, folder_id: Option<String>)
        ensures
            final(self).diary_ui.filter_folder == folder_id,
            final(self).diary_ui.filter_open == old(self).diary_ui.filter_open,
            final(self).diary_ui.filter_tag == old(self).diary_ui.filter_tag,
            same_list_context(final(self), old(self)),
    {
        self.diary_ui.filter_folder = folder_id;
    }

    /// Narrows the diary to a tag, or to none.
    pub fn set_filter_tag(&mut self, tag_id: Option<String>)
        ensures
            final(self).diary_ui.filter_tag == tag_id,
            final(self).diary_ui.filter_open == old(self).diary_ui.filter_open,
            final(self).diary_ui.filter_folder == old(self).diary_ui.filter_folder,
            same_list_context(final(self), old(self)),
    {
        self.diary_ui.filter_tag = tag_id;
    }

    /// Stops narrowing the diary.
    pub fn clear_filters(&mut self)
        ensures
            final(self).diary_ui.filter_folder is None,
            final(self).diary_ui.filter_tag is None,
            final(self).diary_ui.filter_open == old(self).diary_ui.filter_open,
            same_list_context(final(self), old(self)),
    {
        self.diary_ui.filter_folder = None;
        self.diary_ui.filter_tag = None;
    }

    /// Creates an empty entry on the cursor's date, in the diary's folder and
    /// with its tag, and returns its id.
    pub fn create_entry(&mut self) -> (r: String)
        requires
            old(self).store.next_id < u32::MAX,
        ensures
            note_inserted(
                &old(self).store,
                &final(self).store,
                r@,
                opt_str_view(old(self).diary_ui.filter_folder),
                match old(self).diary_ui.filter_tag {
                    Some(t) => seq![t@],
                    None => Seq::empty(),
                },
                old(self).diary_ui.cursor_date_ms,
            ),
            final(self).diary_ui == old(self).diary_ui,
            final(self).is_mobile == old(self).is_mobile,
            final(self).ready == old(self).ready,
    {
        let folder_id = clone_opt_string(&self.diary_ui.filter_folder);
        let mut tag_ids: Vec<String> = Vec::new();
        match &self.diary_ui.filter_tag {
            Some(t) => tag_ids.push(t.clone()),
            None => {},
        }
        assert(tag_ids.deep_view() =~= match self.diary_ui.filter_tag {
            Some(t) => seq![t@],
            None => Seq::<Seq<char>>::empty(),
        });
        self.store.create_diary_note(self.diary_ui.cursor_date_ms, folder_id, tag_ids)
    }

    /// The first and last day of the period the list shows.
    fn period_bounds_days(&self) -> (r: (i64, i64))
        ensures
            r.0 == period_bounds_spec(self.diary_ui.view_mode, self.diary_ui.cursor_date_ms as int).0,
            r.1 == period_bounds_spec(self.diary_ui.view_mode, self.diary_ui.cursor_date_ms as int).1,
    {
        let cursor_ms = self.diary_ui.cursor_date_ms;
        proof {
            lemma_day_of_ms_in_range(cursor_ms);
            lemma_year_in_range(day_of_ms(cursor_ms as int));
            lemma_date_of_day(day_of_ms(cursor_ms as int));
        }
        let cursor_days = day_key(cursor_ms);
        match self.diary_ui.view_mode {
            CalendarViewMode::Day => (cursor_days, cursor_days),
            CalendarViewMode::Week => {
                let start = cursor_days - weekday_index(cursor_days) as i64;
                (start, start + 6)
            },
            CalendarViewMode::Month => {
                let (year, month, _, _, _) = date_ms_to_ymdhm(cursor_ms);
                let start = days_from_civil(year, month, 1);
                let days = days_in_month(year, month) as i64;
                (start, start + days - 1)
            },
        }
    }
}

impl DiaryEntryListState {
    /// The notes of the period the list shows, in the diary's folder and
    /// with its tag, newest first.
    fn entry_notes(&self) -> (r: Vec<Note>)
        ensures
            notes_view(r@) == entry_notes(&self.store, &self.diary_ui),
    {
        let (start_days, end_days) = self.period_bounds_days();
        let ghost p = entry_filter(
            start_days as int,
            end_days as int,
            opt_str_view(self.diary_ui.filter_folder),
            opt_str_view(self.diary_ui.filter_tag),
        );
        let all = self.store.all_notes();
        let ghost av = notes_view(all@);
        let mut picked: Vec<Note> = Vec::new();
        let mut i: usize = 0;
        while i < all.len()
            invariant
                i <= all.len(),
                av == notes_view(all@),
                p == entry_filter(
                    start_days as int,
                    end_days as int,
                    opt_str_view(self.diary_ui.filter_folder),
                    opt_str_view(self.diary_ui.filter_tag),
                ),
                notes_view(picked@) == keep_where(av.take(i as int), p),
            decreases all.len() - i,
        {
            let note = &all[i];
            assert(av.take(i + 1).drop_last() =~= av.take(i as int));
            assert(av.take(i + 1).last() == note@);
            let day = day_key(note.date_ms);
            if day >= start_days && day <= end_days && passes_diary_filter(
                &self.diary_ui.filter_folder,
                &self.diary_ui.filter_tag,
                note,
            ) {
                picked.push(note.duplicate());
                assert(notes_view(picked@) =~= keep_where(av.take(i + 1), p));
            }
            i = i + 1;
        }
        assert(av.take(all.len() as int) =~= av);
        let sorted = sort_in_order::<Note, NewestFirst>(picked);
        assert(views(sorted@) =~= notes_view(sorted@));
        assert(views(picked@) =~= notes_view(picked@));
        sorted
    }

    /// The rows of the list, with `today_days` as today; `active_note_id` is
    /// the note being shown.
    pub fn entries_at(&self, active_note_id: Option<&str>, today_days: i64) -> (r: Vec<
        DiaryEntryRow,
    >)
        ensures
            rows_view(r@) == entries_spec(
                &self.store,
                &self.diary_ui,
                opt_text(active_note_id),
                today_days as int,
            ),
            r@.len() == entry_notes(&self.store, &self.diary_ui).len(),
            forall|i: int|
                0 <= i < r@.len() ==> #[trigger] r@[i].id@ == entry_notes(&self.store, &self.diary_ui)[i].id,
            forall|i: int, j: int|
                0 <= i < j < r@.len() ==> entry_notes(&self.store, &self.diary_ui)[i].date_ms
                    >= entry_notes(&self.store, &self.diary_ui)[j].date_ms,
    {
        proof {
            lemma_entry_notes(&self.store, &self.diary_ui, NoteView {
                user_id: Seq::empty(),
                id: Seq::empty(),
                title: Seq::empty(),
                content: Seq::empty(),
                folder_id: None,
                tag_ids: Seq::empty(),
                pinned: false,
                starred: false,
                updated_at_ms: 0,
                order: 0,
                date_ms: 0,
                remind_before_hours: None,
            });
        }
        let notes = self.entry_notes();
        let folders = self.store.folders();
        let ghost nv = notes_view(notes@);
        let ghost fv = folders_view(folders@);
        let ghost want = entries_spec(
            &self.store,
            &self.diary_ui,
            opt_text(active_note_id),
            today_days as int,
        );
        let view_mode = self.diary_ui.view_mode;
        let mut rows: Vec<DiaryEntryRow> = Vec::new();
        let mut last_day: Option<i64> = None;
        let mut i: usize = 0;
        while i < notes.len()
            invariant
                i <= notes.len(),
                nv == notes_view(notes@),
                nv == entry_notes(&self.store, &self.diary_ui),
                fv == folders_view(folders@),
                fv == sort_ordered::<Folder, FolderByOrder>(
                    owned_folders_spec(folders_view(self.store.folders@), self.store.user_id@),
                ),
                view_mode == self.diary_ui.view_mode,
                want == entries_spec(
                    &self.store,
                    &self.diary_ui,
                    opt_text(active_note_id),
                    today_days as int,
                ),
                want.len() == nv.len(),
                last_day == (if i == 0 {
                    None
                } else {
                    Some(day_of_ms(nv[i - 1].date_ms as int) as i64)
                }),
                rows_view(rows@) == want.take(i as int),
            decreases notes.len() - i,
        {
            let note = &notes[i];
            assert(nv[i as int] == note@);
            proof {
                lemma_day_of_ms_in_range(note.date_ms);
                lemma_year_in_range(day_of_ms(note.date_ms as int));
            }
            let day = day_key(note.date_ms);
            let show_day_header = view_mode != CalendarViewMode::Day && match last_day {
                Some(previous) => previous != day,
                None => true,
            };
            last_day = Some(day);
            let (_, month, day_of_month) = civil_from_days(day);
            let folder_name = match &note.folder_id {
                Some(folder_id) => match find_folder(&folders, folder_id.as_str()) {
                    Some(k) => {
                        assert(fv[k as int].name == folders@[k as int].name@);
                        folders[k].name.clone()
                    },
                    None => String::new(),
                },
                None => String::new(),
            };
            let is_active = match active_note_id {
                Some(active) => str_eq(active, note.id.as_str()),
                None => false,
            };
            let row = DiaryEntryRow {
                id: note.id.clone(),
                title: note.title.clone(),
                snippet: snippet(note.content.as_str()),
                time_label: date_ms_to_time_string(note.date_ms),
                folder_name,
                has_reminder: note.remind_before_hours.is_some(),
                is_active,
                show_day_header,
                day_header: DayHeader {
                    is_today: day == today_days,
                    weekday: weekday_index(day),
                    day_of_month,
                    month,
                },
            };
            assert(row@ == want[i as int]);
            let ghost before = rows@;
            assert(rows_view(before).len() == before.len());
            assert(want.take(i as int).len() == i);
            rows.push(row);
            assert(rows@ == before.push(row));
            assert(rows_view(rows@) =~= want.take(i + 1));
            i = i + 1;
        }
        assert(want.take(notes.len() as int) =~= want);
        assert forall|i: int| 0 <= i < rows@.len() implies #[trigger] rows@[i].id@ == entry_notes(
            &self.store,
            &self.diary_ui,
        )[i].id by {
            assert(rows_view(rows@)[i] == rows@[i]@);
            assert(want[i] == entry_row_spec(
                nv,
                i,
                fv,
                self.diary_ui.view_mode,
                opt_text(active_note_id),
                today_days as int,
            ));
        }
        rows
    }

    /// The rows of the list, with today by the local clock.
    pub fn entries(&self, active_note_id: Option<&str>, offset: &LocalOffset) -> (r: Vec<
        DiaryEntryRow,
    >)
        ensures
            exists|today: int|
                rows_view(r@) == entries_spec(
                    &self.store,
                    &self.diary_ui,
                    opt_text(active_note_id),
                    today,
                ),
            r@.len() == entry_notes(&self.store, &self.diary_ui).len(),
            forall|i: int|
                0 <= i < r@.len() ==> #[trigger] r@[i].id@ == entry_notes(&self.store, &self.diary_ui)[i].id,
            forall|i: int, j: int|
                0 <= i < j < r@.len() ==> entry_notes(&self.store, &self.diary_ui)[i].date_ms
                    >= entry_notes(&self.store, &self.diary_ui)[j].date_ms,
    {
        let today_days = day_key(local_now_ms(offset));
        self.entries_at(active_note_id, today_days)
    }
}

proof fn lemma_newest_first_total()
    ensures
        total_preorder::<Note, NewestFirst>(),
{
}

/// The diary lists notes newest first: over all stores and view states, the
/// listed notes go by non-increasing date, and they are exactly the user's
/// notes dated within the period shown, in the diary's folder and with its
/// tag.
pub proof fn lemma_entry_notes(store: &NotesStore, ui: &DiaryUiState, n: NoteView)
    ensures
        forall|i: int, j: int|
            0 <= i < j < entry_notes(store, ui).len() ==> #[trigger] entry_notes(store, ui)[i].date_ms
                >= #[trigger] entry_notes(store, ui)[j].date_ms,
        entry_notes(store, ui).contains(n) <==> {
            let bounds = period_bounds_spec(ui.view_mode, ui.cursor_date_ms as int);
            &&& owned_notes_spec(notes_view(store.notes@), store.user_id@).contains(n)
            &&& bounds.0 <= day_of_ms(n.date_ms as int) <= bounds.1
            &&& (ui.filter_folder matches Some(f) ==> n.folder_id == Some(f@))
            &&& (ui.filter_tag matches Some(t) ==> n.tag_ids.contains(t@))
        },
{
    broadcast use vstd::seq_lib::group_to_multiset_ensures;

    let bounds = period_bounds_spec(ui.view_mode, ui.cursor_date_ms as int);
    let owned = owned_notes_spec(notes_view(store.notes@), store.user_id@);
    let p = entry_filter(
        bounds.0,
        bounds.1,
        opt_str_view(ui.filter_folder),
        opt_str_view(ui.filter_tag),
    );
    let kept = keep_where(owned, p);
    lemma_newest_first_total();
    lemma_sort_ordered::<Note, NewestFirst>(kept);
    lemma_keep_where_contains(owned, p, n);
    let listed = entry_notes(store, ui);
    assert(listed.contains(n) <==> listed.to_multiset().count(n) > 0);
    assert(kept.contains(n) <==> kept.to_multiset().count(n) > 0);
    assert forall|i: int, j: int| 0 <= i < j < listed.len() implies #[trigger] listed[i].date_ms
        >= #[trigger] listed[j].date_ms by {
        assert(<NewestFirst as Order<Note>>::le(listed[i], listed[j]));
    }
}

} // verus!
