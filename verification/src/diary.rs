//! The diary: the calendar's view state, its grid of days, the label of the
//! period it shows, and its moves between periods.
use vstd::prelude::*;

use crate::clock::local_now_ms;
use crate::date_math::{
    add_days, civil_days, civil_from_days, date_ms_to_ymdhm, date_of_day, day_in_range, day_key,
    day_key_to_ms, day_of_ms, days_from_civil, days_in_month, hour_of_ms,
    lemma_date_of_day, lemma_day_of_ms_in_range,
    lemma_year_in_range, lemma_ymdhm_round_trip, minute_of_ms, month_length, weekday_index,
    weekday_spec, ymdhm_ms, ymdhm_to_date_ms, LocalOffset, MS_PER_DAY,
};
use crate::note::{opt_str_view, Note, NoteView};
use crate::notes::{keep_where, note_in_folder, owned_notes_spec, strings_contain, NotesStore};
use crate::reminders::notes_view;
use crate::text::{decimal, push_decimal};

verus! {

/// How much of the calendar the diary shows.
#[derive(Debug, Clone, Copy, PartialEq, Eq, Structural)]
pub enum CalendarViewMode {
    Day,
    Week,
    Month,
}

/// The diary's view state: the period shown, the day under the cursor, the
/// open panels, and the folder and tag the diary is narrowed to.
pub struct DiaryUiState {
    pub view_mode: CalendarViewMode,
    pub cursor_date_ms: i64,
    pub calendar_open: bool,
    pub filter_open: bool,
    pub filter_folder: Option<String>,
    pub filter_tag: Option<String>,
}

impl DiaryUiState {
    /// The state the diary opens with: the month of the current local time,
    /// panels closed, not narrowed.
    pub fn seed(offset: &LocalOffset) -> (r: Self)
        ensures
            r.view_mode == CalendarViewMode::Month,
            !r.calendar_open,
            !r.filter_open,
            r.filter_folder is None,
            r.filter_tag is None,
    {
        DiaryUiState {
            view_mode: CalendarViewMode::Month,
            cursor_date_ms: local_now_ms(offset),
            calendar_open: false,
            filter_open: false,
            filter_folder: None,
            filter_tag: None,
        }
    }
}

/// Whether a note lies in the folder and carries the tag the diary is
/// narrowed to (either may be absent).
pub open spec fn diary_filter(folder: Option<Seq<char>>, tag: Option<Seq<char>>) -> spec_fn(
    NoteView,
) -> bool {
    |n: NoteView|
        (match folder {
            Some(f) => n.folder_id == Some(f),
            None => true,
        }) && (match tag {
            Some(t) => n.tag_ids.contains(t),
            None => true,
        })
}

pub(crate) fn passes_diary_filter(folder: &Option<String>, tag: &Option<String>, note: &Note) -> (r:
    bool)
    ensures
        r == (diary_filter(opt_str_view(*folder), opt_str_view(*tag)))(note@),
{
    let in_folder = match folder {
        Some(f) => note_in_folder(note, f.as_str()),
        None => true,
    };
    let with_tag = match tag {
        Some(t) => strings_contain(&note.tag_ids, t.as_str()),
        None => true,
    };
    in_folder && with_tag
}

/// One day of the calendar grid.
pub struct DayCell {
    pub day_key: i64,
    /// The day of the month, in decimal.
    pub label: String,
    /// The weekday, 0 = Monday .. 6 = Sunday.
    pub weekday_index: u32,
    pub in_current_month: bool,
    pub is_selected: bool,
    pub is_today: bool,
    pub has_notes: bool,
    pub has_reminder: bool,
}

pub struct DayCellView {
    pub day_key: int,
    pub label: Seq<char>,
    pub weekday_index: int,
    pub in_current_month: bool,
    pub is_selected: bool,
    pub is_today: bool,
    pub has_notes: bool,
    pub has_reminder: bool,
}

impl View for DayCell {
    type V = DayCellView;

    open spec fn view(&self) -> DayCellView {
        DayCellView {
            day_key: self.day_key as int,
            label: self.label@,
            weekday_index: self.weekday_index as int,
            in_current_month: self.in_current_month,
            is_selected: self.is_selected,
            is_today: self.is_today,
            has_notes: self.has_notes,
            has_reminder: self.has_reminder,
        }
    }
}

pub open spec fn cells_view(s: Seq<DayCell>) -> Seq<DayCellView> {
    s.map_values(|c: DayCell| c@)
}

/// Some note is dated on day `days`.
pub open spec fn note_on_day(notes: Seq<NoteView>, days: int) -> bool {
    exists|i: int| 0 <= i < notes.len() && day_of_ms(#[trigger] notes[i].date_ms as int) == days
}

/// Some note with a reminder is dated on day `days`.
pub open spec fn reminder_on_day(notes: Seq<NoteView>, days: int) -> bool {
    exists|i: int|
        0 <= i < notes.len() && day_of_ms(#[trigger] notes[i].date_ms as int) == days
            && notes[i].remind_before_hours is Some
}

/// The grid cell of day `days`.
pub open spec fn day_cell_spec(
    days: int,
    in_current_month: bool,
    notes: Seq<NoteView>,
    today: int,
    cursor: int,
) -> DayCellView {
    DayCellView {
        day_key: days,
        label: decimal(date_of_day(days).2 as nat),
        weekday_index: weekday_spec(days),
        in_current_month: in_current_month,
        is_selected: days == cursor,
        is_today: days == today,
        has_notes: note_on_day(notes, days),
        has_reminder: reminder_on_day(notes, days),
    }
}

/// The first day of the month grid of the instant `cursor_ms`: the Monday on
/// or before the first of its month.
pub open spec fn month_grid_start(cursor_ms: int) -> int {
    let date = date_of_day(day_of_ms(cursor_ms));
    let first = civil_days(date.0, date.1, 1);
    first - weekday_spec(first)
}

/// The six weeks of the month grid of `cursor_ms`.
pub open spec fn month_cells_spec(cursor_ms: int, notes: Seq<NoteView>, today: int) -> Seq<
    DayCellView,
> {
    let date = date_of_day(day_of_ms(cursor_ms));
    Seq::new(
        42,
        |i: int|
            day_cell_spec(
                month_grid_start(cursor_ms) + i,
                date_of_day(month_grid_start(cursor_ms) + i).0 == date.0 && date_of_day(
                    month_grid_start(cursor_ms) + i,
                ).1 == date.1,
                notes,
                today,
                day_of_ms(cursor_ms),
            ),
    )
}

/// The Monday on or before the day of `cursor_ms`.
pub open spec fn week_start(cursor_ms: int) -> int {
    day_of_ms(cursor_ms) - weekday_spec(day_of_ms(cursor_ms))
}

/// The week of `cursor_ms`, Monday to Sunday.
pub open spec fn week_cells_spec(cursor_ms: int, notes: Seq<NoteView>, today: int) -> Seq<
    DayCellView,
> {
    Seq::new(
        7,
        |i: int| day_cell_spec(week_start(cursor_ms) + i, true, notes, today, day_of_ms(cursor_ms)),
    )
}

/// The period the diary shows, as its label names it.
#[derive(Debug, Clone, Copy, PartialEq, Eq, Structural)]
pub enum PeriodLabel {
    /// A month of a year.
    Month { month: u32, year: i32 },
    /// A week from its Monday to its Sunday.
    Week { start_day: u32, start_month: u32, end_day: u32, end_month: u32, end_year: i32 },
    /// A day, with its weekday (0 = Monday).
    Day { weekday: u32, day: u32, month: u32, year: i32 },
}

/// The label of the period of `mode` that contains `cursor_ms`.
pub open spec fn period_label_spec(mode: CalendarViewMode, cursor_ms: int) -> PeriodLabel {
    let date = date_of_day(day_of_ms(cursor_ms));
    match mode {
        CalendarViewMode::Month => PeriodLabel::Month { month: date.1 as u32, year: date.0 as i32 },
        CalendarViewMode::Week => {
            let start = date_of_day(week_start(cursor_ms));
            let end = date_of_day(week_start(cursor_ms) + 6);
            PeriodLabel::Week {
                start_day: start.2 as u32,
                start_month: start.1 as u32,
                end_day: end.2 as u32,
                end_month: end.1 as u32,
                end_year: end.0 as i32,
            }
        },
        CalendarViewMode::Day => PeriodLabel::Day {
            weekday: weekday_spec(day_of_ms(cursor_ms)) as u32,
            day: date.2 as u32,
            month: date.1 as u32,
            year: date.0 as i32,
        },
    }
}

/// Where a move of `direction` periods of `mode` takes the cursor: by whole
/// days or weeks, or by months keeping the day (clamped to the month's
/// length) and the time of day.
pub open spec fn step_spec(mode: CalendarViewMode, cursor_ms: int, direction: int) -> int {
    match mode {
        CalendarViewMode::Day => cursor_ms + direction * MS_PER_DAY,
        CalendarViewMode::Week => cursor_ms + direction * 7 * MS_PER_DAY,
        CalendarViewMode::Month => {
            let date = date_of_day(day_of_ms(cursor_ms));
            let months = date.0 * 12 + date.1 - 1 + direction;
            let year = months / 12;
            let month = months % 12 + 1;
            let day = if date.2 <= month_length(year, month) {
                date.2
            } else {
                month_length(year, month)
            };
            ymdhm_ms(year, month, day, hour_of_ms(cursor_ms), minute_of_ms(cursor_ms))
        },
    }
}

/// The move of `direction` periods stays within what the machine's integers
/// hold.
pub open spec fn step_fits(mode: CalendarViewMode, cursor_ms: int, direction: int) -> bool {
    match mode {
        CalendarViewMode::Day => i64::MIN <= direction * MS_PER_DAY <= i64::MAX && i64::MIN
            <= step_spec(mode, cursor_ms, direction) <= i64::MAX,
        CalendarViewMode::Week => i64::MIN <= direction * 7 * MS_PER_DAY <= i64::MAX && i64::MIN
            <= step_spec(mode, cursor_ms, direction) <= i64::MAX,
        CalendarViewMode::Month => {
            let date = date_of_day(day_of_ms(cursor_ms));
            let months = date.0 * 12 + date.1 - 1 + direction;
            &&& i64::MIN <= months <= i64::MAX
            &&& i32::MIN <= months / 12 < i32::MAX
            &&& i64::MIN <= step_spec(mode, cursor_ms, direction) <= i64::MAX
            &&& i64::MIN <= civil_days(
                months / 12,
                months % 12 + 1,
                if date.2 <= month_length(months / 12, months % 12 + 1) {
                    date.2
                } else {
                    month_length(months / 12, months % 12 + 1)
                },
            ) * MS_PER_DAY
        },
    }
}

/// The diary's calendar over the notes store.
pub struct DiaryCalendarState {
    pub store: NotesStore,
    pub diary_ui: DiaryUiState,
    pub is_mobile: bool,
}

impl DiaryCalendarState {
    pub fn view_mode(&self) -> (r: CalendarViewMode)
        ensures
            r == self.diary_ui.view_mode,
    {
        self.diary_ui.view_mode
    }

    pub fn cursor_date_ms(&self) -> (r: i64)
        ensures
            r == self.diary_ui.cursor_date_ms,
    {
        self.diary_ui.cursor_date_ms
    }

    pub fn set_view(&mut self, mode: CalendarViewMode)
        ensures
            final(self).diary_ui.view_mode == mode,
            final(self).diary_ui.cursor_date_ms == old(self).diary_ui.cursor_date_ms,
            final(self).diary_ui.calendar_open == old(self).diary_ui.calendar_open,
            final(self).diary_ui.filter_open == old(self).diary_ui.filter_open,
            final(self).diary_ui.filter_folder == old(self).diary_ui.filter_folder,
            final(self).diary_ui.filter_tag == old(self).diary_ui.filter_tag,
            final(self).store == old(self).store,
            final(self).is_mobile == old(self).is_mobile,
    {
        self.diary_ui.view_mode = mode;
    }

    pub fn calendar_open(&self) -> (r: bool)
        ensures
            r == self.diary_ui.calendar_open,
    {
        self.diary_ui.calendar_open
    }

    pub fn set_calendar_open(&mut self, open: bool)
        ensures
            final(self).diary_ui.calendar_open == open,
            final(self).diary_ui.view_mode == old(self).diary_ui.view_mode,
            final(self).diary_ui.cursor_date_ms == old(self).diary_ui.cursor_date_ms,
            final(self).diary_ui.filter_open == old(self).diary_ui.filter_open,
            final(self).diary_ui.filter_folder == old(self).diary_ui.filter_folder,
            final(self).diary_ui.filter_tag == old(self).diary_ui.filter_tag,
            final(self).store == old(self).store,
            final(self).is_mobile == old(self).is_mobile,
    {
        self.diary_ui.calendar_open = open;
    }

    pub fn filter_folder(&self) -> (r: Option<String>)
        ensures
            opt_str_view(r) == opt_str_view(self.diary_ui.filter_folder),
    {
        crate::note::clone_opt_string(&self.diary_ui.filter_folder)
    }

    pub fn filter_tag(&self) -> (r: Option<String>)
        ensures
            opt_str_view(r) == opt_str_view(self.diary_ui.filter_tag),
    {
        crate::note::clone_opt_string(&self.diary_ui.filter_tag)
    }

    /// The user's notes in the diary's folder and with its tag, in store
    /// order.
    pub fn filtered_notes(&self) -> (r: Vec<Note>)
        ensures
            notes_view(r@) == keep_where(
                owned_notes_spec(notes_view(self.store.notes@), self.store.user_id@),
                diary_filter(
                    opt_str_view(self.diary_ui.filter_folder),
                    opt_str_view(self.diary_ui.filter_tag),
                ),
            ),
    {
        let all = self.store.all_notes();
        let ghost av = notes_view(all@);
        let ghost p = diary_filter(
            opt_str_view(self.diary_ui.filter_folder),
            opt_str_view(self.diary_ui.filter_tag),
        );
        let mut kept: Vec<Note> = Vec::new();
        let mut i: usize = 0;
        while i < all.len()
            invariant
                i <= all.len(),
                av == notes_view(all@),
                p == diary_filter(
                    opt_str_view(self.diary_ui.filter_folder),
                    opt_str_view(self.diary_ui.filter_tag),
                ),
                notes_view(kept@) == keep_where(av.take(i as int), p),
            decreases all.len() - i,
        {
            let note = &all[i];
            assert(av.take(i + 1).drop_last() =~= av.take(i as int));
            assert(av.take(i + 1).last() == note@);
            if passes_diary_filter(&self.diary_ui.filter_folder, &self.diary_ui.filter_tag, note) {
                kept.push(note.duplicate());
                assert(notes_view(kept@) =~= keep_where(av.take(i + 1), p));
            }
            i = i + 1;
        }
        assert(av.take(all.len() as int) =~= av);
        kept
    }
}

fn day_cell(days: i64, in_current_month: bool, notes: &Vec<Note>, today_days: i64, cursor_days: i64) -> (r:
    DayCell)
    requires
        day_in_range(days as int),
    ensures
        r@ == day_cell_spec(
            days as int,
            in_current_month,
            notes_view(notes@),
            today_days as int,
            cursor_days as int,
        ),
{
    let ghost nv = notes_view(notes@);
    let (_, _, day) = civil_from_days(days);
    let mut label = String::new();
    push_decimal(&mut label, day as u64);
    let mut has_notes = false;
    let mut has_reminder = false;
    let mut i: usize = 0;
    while i < notes.len()
        invariant
            i <= notes.len(),
            nv == notes_view(notes@),
            has_notes == exists|j: int|
                0 <= j < i && day_of_ms(#[trigger] nv[j].date_ms as int) == days,
            has_reminder == exists|j: int|
                0 <= j < i && day_of_ms(#[trigger] nv[j].date_ms as int) == days
                    && nv[j].remind_before_hours is Some,
        decreases notes.len() - i,
    {
        assert(nv[i as int].date_ms == notes@[i as int].date_ms);
        if day_key(notes[i].date_ms) == days {
            has_notes = true;
            if notes[i].remind_before_hours.is_some() {
                has_reminder = true;
            }
        }
        i = i + 1;
    }
    DayCell {
        day_key: days,
        label,
        weekday_index: weekday_index(days),
        in_current_month,
        is_selected: days == cursor_days,
        is_today: days == today_days,
        has_notes,
        has_reminder,
    }
}

/// The first day of the month of a day, and facts about where it lies.
proof fn lemma_month_start(z: int)
    requires
        -107_000_000_000 <= z <= 107_000_000_000,
    ensures
        civil_days(date_of_day(z).0, date_of_day(z).1, 1) == z - (date_of_day(z).2 - 1),
        1 <= date_of_day(z).1 <= 12,
        1 <= date_of_day(z).2 <= 31,
        -600_000_000 <= date_of_day(z).0 <= 600_000_000,
{
    lemma_date_of_day(z);
    lemma_year_in_range(z);
    let date = date_of_day(z);
    assert(month_length(date.0, date.1) <= 31);
}

impl DiaryCalendarState {
    /// The six-week grid of the cursor's month, from the Monday on or before
    /// its first day, with `today_days` as today.
    pub fn month_cells_at(&self, today_days: i64) -> (r: Vec<DayCell>)
        ensures
            cells_view(r@) == month_cells_spec(
                self.diary_ui.cursor_date_ms as int,
                keep_where(
                    owned_notes_spec(notes_view(self.store.notes@), self.store.user_id@),
                    diary_filter(
                        opt_str_view(self.diary_ui.filter_folder),
                        opt_str_view(self.diary_ui.filter_tag),
                    ),
                ),
                today_days as int,
            ),
    {
        let cursor = self.diary_ui.cursor_date_ms;
        let ghost z = day_of_ms(cursor as int);
        proof {
            lemma_day_of_ms_in_range(cursor);
            lemma_month_start(z);
        }
        let (year, month, _, _, _) = date_ms_to_ymdhm(cursor);
        let month_start_days = days_from_civil(year, month, 1);
        let lead = weekday_index(month_start_days) as i64;
        let grid_start_days = month_start_days - lead;
        let cursor_days = day_key(cursor);
        let notes = self.filtered_notes();
        let ghost nv = notes_view(notes@);
        let ghost want = month_cells_spec(cursor as int, nv, today_days as int);
        assert(grid_start_days == month_grid_start(cursor as int));
        let mut cells: Vec<DayCell> = Vec::new();
        let mut offset: i64 = 0;
        while offset < 42
            invariant
                0 <= offset <= 42,
                nv == notes_view(notes@),
                want == month_cells_spec(cursor as int, nv, today_days as int),
                grid_start_days == month_grid_start(cursor as int),
                z - 37 <= grid_start_days <= z,
                -107_000_000_000 <= z <= 107_000_000_000,
                year == date_of_day(z).0,
                month == date_of_day(z).1,
                cursor_days == z,
                z == day_of_ms(cursor as int),
                cells_view(cells@) == want.take(offset as int),
            decreases 42 - offset,
        {
            let days = grid_start_days + offset;
            proof {
                lemma_year_in_range(days as int);
            }
            let (cell_year, cell_month, _) = civil_from_days(days);
            let in_current_month = cell_year == year && cell_month == month;
            assert(in_current_month == (date_of_day(days as int).0 == date_of_day(z).0
                && date_of_day(days as int).1 == date_of_day(z).1));
            let cell = day_cell(days, in_current_month, &notes, today_days, cursor_days);
            assert(want[offset as int] == day_cell_spec(
                month_grid_start(cursor as int) + offset,
                in_current_month,
                nv,
                today_days as int,
                day_of_ms(cursor as int),
            ));
            assert(cell@ == want[offset as int]);
            let ghost before = cells@;
            assert(cells_view(before).len() == before.len());
            assert(want.take(offset as int).len() == offset);
            cells.push(cell);
            assert(cells@ == before.push(cell));
            assert(cells_view(cells@) =~= want.take(offset + 1));
            offset = offset + 1;
        }
        assert(want.take(42) =~= want);
        cells
    }

    /// The six-week grid of the cursor's month, with today by the local
    /// clock.
    pub fn month_cells(&self, offset: &LocalOffset) -> (r: Vec<DayCell>)
        ensures
            exists|today: int|
                cells_view(r@) == month_cells_spec(
                    self.diary_ui.cursor_date_ms as int,
                    keep_where(
                        owned_notes_spec(notes_view(self.store.notes@), self.store.user_id@),
                        diary_filter(
                            opt_str_view(self.diary_ui.filter_folder),
                            opt_str_view(self.diary_ui.filter_tag),
                        ),
                    ),
                    today,
                ),
    {
        let today_days = day_key(local_now_ms(offset));
        self.month_cells_at(today_days)
    }

    /// The cursor's week, Monday to Sunday, with `today_days` as today.
    pub fn week_cells_at(&self, today_days: i64) -> (r: Vec<DayCell>)
        ensures
            cells_view(r@) == week_cells_spec(
                self.diary_ui.cursor_date_ms as int,
                keep_where(
                    owned_notes_spec(notes_view(self.store.notes@), self.store.user_id@),
                    diary_filter(
                        opt_str_view(self.diary_ui.filter_folder),
                        opt_str_view(self.diary_ui.filter_tag),
                    ),
                ),
                today_days as int,
            ),
    {
        let cursor = self.diary_ui.cursor_date_ms;
        proof {
            lemma_day_of_ms_in_range(cursor);
        }
        let cursor_days = day_key(cursor);
        let week_start_days = cursor_days - weekday_index(cursor_days) as i64;
        let notes = self.filtered_notes();
        let ghost nv = notes_view(notes@);
        let ghost want = week_cells_spec(cursor as int, nv, today_days as int);
        let mut cells: Vec<DayCell> = Vec::new();
        let mut offset: i64 = 0;
        while offset < 7
            invariant
                0 <= offset <= 7,
                nv == notes_view(notes@),
                want == week_cells_spec(cursor as int, nv, today_days as int),
                week_start_days == week_start(cursor as int),
                cursor_days == day_of_ms(cursor as int),
                -107_000_000_000 <= cursor_days <= 107_000_000_000,
                cursor_days - 6 <= week_start_days <= cursor_days,
                cells_view(cells@) == want.take(offset as int),
            decreases 7 - offset,
        {
            let cell = day_cell(week_start_days + offset, true, &notes, today_days, cursor_days);
            assert(cell@ == want[offset as int]);
            let ghost before = cells@;
            assert(cells_view(before).len() == before.len());
            assert(want.take(offset as int).len() == offset);
            cells.push(cell);
            assert(cells@ == before.push(cell));
            assert(cells_view(cells@) =~= want.take(offset + 1));
            offset = offset + 1;
        }
        assert(want.take(7) =~= want);
        cells
    }

    /// The cursor's week, Monday to Sunday, with today by the local clock.
    pub fn week_cells(&self, offset: &LocalOffset) -> (r: Vec<DayCell>)
        ensures
            exists|today: int|
                cells_view(r@) == week_cells_spec(
                    self.diary_ui.cursor_date_ms as int,
                    keep_where(
                        owned_notes_spec(notes_view(self.store.notes@), self.store.user_id@),
                        diary_filter(
                            opt_str_view(self.diary_ui.filter_folder),
                            opt_str_view(self.diary_ui.filter_tag),
                        ),
                    ),
                    today,
                ),
    {
        let today_days = day_key(local_now_ms(offset));
        self.week_cells_at(today_days)
    }

    /// The label of the period the calendar shows.
    pub fn header_label(&self) -> (r: PeriodLabel)
        ensures
            r == period_label_spec(self.diary_ui.view_mode, self.diary_ui.cursor_date_ms as int),
    {
        period_label(self.diary_ui.view_mode, self.diary_ui.cursor_date_ms)
    }

    /// Shows a day: the cursor moves to its start, the view to that day, and
    /// the calendar panel closes.
    pub fn select_day(&mut self, day_key: i64)
        requires
            i64::MIN <= day_key * MS_PER_DAY <= i64::MAX,
        ensures
            final(self).diary_ui.cursor_date_ms == day_key * MS_PER_DAY,
            final(self).diary_ui.view_mode == CalendarViewMode::Day,
            !final(self).diary_ui.calendar_open,
            final(self).diary_ui.filter_open == old(self).diary_ui.filter_open,
            final(self).diary_ui.filter_folder == old(self).diary_ui.filter_folder,
            final(self).diary_ui.filter_tag == old(self).diary_ui.filter_tag,
            final(self).store == old(self).store,
            final(self).is_mobile == old(self).is_mobile,
    {
        self.diary_ui.cursor_date_ms = day_key_to_ms(day_key);
        self.diary_ui.view_mode = CalendarViewMode::Day;
        self.diary_ui.calendar_open = false;
    }

    /// Moves the cursor `direction` periods of the current view: whole days,
    /// whole weeks, or months (keeping the day of the month where the target
    /// month has it, else its last day, and the time of day).
    pub fn step(&mut self, direction: i64)
        requires
            step_fits(old(self).diary_ui.view_mode, old(self).diary_ui.cursor_date_ms as int, direction as int),
        ensures
            final(self).diary_ui.cursor_date_ms == step_spec(
                old(self).diary_ui.view_mode,
                old(self).diary_ui.cursor_date_ms as int,
                direction as int,
            ),
            final(self).diary_ui.view_mode == old(self).diary_ui.view_mode,
            final(self).diary_ui.calendar_open == old(self).diary_ui.calendar_open,
            final(self).diary_ui.filter_open == old(self).diary_ui.filter_open,
            final(self).diary_ui.filter_folder == old(self).diary_ui.filter_folder,
            final(self).diary_ui.filter_tag == old(self).diary_ui.filter_tag,
            final(self).store == old(self).store,
            final(self).is_mobile == old(self).is_mobile,
    {
        self.diary_ui.cursor_date_ms = step_cursor(self.diary_ui.view_mode, self.diary_ui.cursor_date_ms, direction);
    }
}

/// The label of the period of `mode` containing `cursor_ms`.
pub(crate) fn period_label(mode: CalendarViewMode, cursor_ms: i64) -> (r: PeriodLabel)
    ensures
        r == period_label_spec(mode, cursor_ms as int),
{
    proof {
        lemma_day_of_ms_in_range(cursor_ms);
    }
    let (year, month, day, _, _) = date_ms_to_ymdhm(cursor_ms);
    match mode {
        CalendarViewMode::Month => PeriodLabel::Month { month, year },
        CalendarViewMode::Week => {
            let cursor_days = day_key(cursor_ms);
            let week_start_days = cursor_days - weekday_index(cursor_days) as i64;
            let week_end_days = week_start_days + 6;
            let (_, start_month, start_day) = civil_from_days(week_start_days);
            let (end_year, end_month, end_day) = civil_from_days(week_end_days);
            PeriodLabel::Week { start_day, start_month, end_day, end_month, end_year }
        },
        CalendarViewMode::Day => {
            let cursor_days = day_key(cursor_ms);
            PeriodLabel::Day { weekday: weekday_index(cursor_days), day, month, year }
        },
    }
}

/// Where a move of `direction` periods of `mode` takes the cursor.  The day
/// moves by `direction` days or weeks, or lands on the clamped day of the
/// month `direction` months away; the time of day stays.
pub fn step_cursor(mode: CalendarViewMode, cursor_ms: i64, direction: i64) -> (r: i64)
    requires
        step_fits(mode, cursor_ms as int, direction as int),
    ensures
        r == step_spec(mode, cursor_ms as int, direction as int),
        hour_of_ms(r as int) == hour_of_ms(cursor_ms as int),
        minute_of_ms(r as int) == minute_of_ms(cursor_ms as int),
        mode == CalendarViewMode::Day ==> day_of_ms(r as int) == day_of_ms(cursor_ms as int)
            + direction,
        mode == CalendarViewMode::Week ==> day_of_ms(r as int) == day_of_ms(cursor_ms as int) + 7
            * direction,
        mode == CalendarViewMode::Month ==> {
            let date = date_of_day(day_of_ms(cursor_ms as int));
            let months = date.0 * 12 + date.1 - 1 + direction;
            let landed = date_of_day(day_of_ms(r as int));
            &&& landed.0 == months / 12
            &&& landed.1 == months % 12 + 1
            &&& landed.2 == if date.2 <= month_length(landed.0, landed.1) {
                date.2
            } else {
                month_length(landed.0, landed.1)
            }
        },
{
    match mode {
        CalendarViewMode::Day => {
            proof {
                crate::date_math::lemma_add_days_keeps_time_of_day(cursor_ms as int, direction as int);
            }
            add_days(cursor_ms, direction)
        },
        CalendarViewMode::Week => {
            proof {
                crate::date_math::lemma_add_days_keeps_time_of_day(cursor_ms as int, 7 * direction);
                assert(direction * 7 * MS_PER_DAY == (7 * direction) * MS_PER_DAY) by (nonlinear_arith);
            }
            add_days(cursor_ms, direction * 7)
        },
        CalendarViewMode::Month => {
            let ghost z = day_of_ms(cursor_ms as int);
            proof {
                lemma_day_of_ms_in_range(cursor_ms);
                lemma_month_start(z);
            }
            let (year, month, day, hour, minute) = date_ms_to_ymdhm(cursor_ms);
            let total_months: i64 = year as i64 * 12 + (month as i64 - 1) + direction;
            let next_year: i32 = match total_months.checked_div_euclid(12) {
                Some(v) => v as i32,
                None => 0,
            };
            let next_month: u32 = match total_months.checked_rem_euclid(12) {
                Some(v) => (v + 1) as u32,
                None => 1,
            };
            let month_days = days_in_month(next_year, next_month);
            let clamped_day = if day <= month_days {
                day
            } else {
                month_days
            };
            proof {
                assert(hour < 24 && minute < 60) by {
                    assert(0 <= crate::date_math::ms_of_day(cursor_ms as int) < MS_PER_DAY);
                }
                assert(month_length(next_year as int, next_month as int) >= 28);
                lemma_ymdhm_round_trip(
                    next_year as int,
                    next_month as int,
                    clamped_day as int,
                    hour as int,
                    minute as int,
                );
            }
            ymdhm_to_date_ms(next_year, next_month, clamped_day, hour, minute)
        },
    }
}

/// Moving the cursor by days or weeks and back returns it to where it was;
/// moving it by months and back returns it to the same month at the same
/// time of day, on the same day or, where a shorter month clamped it, an
/// earlier one.
pub proof fn lemma_step_back(mode: CalendarViewMode, cursor_ms: int, direction: int)
    ensures
        mode != CalendarViewMode::Month ==> step_spec(
            mode,
            step_spec(mode, cursor_ms, direction),
            -direction,
        ) == cursor_ms,
        mode == CalendarViewMode::Month ==> {
            let back = step_spec(mode, step_spec(mode, cursor_ms, direction), -direction);
            let start = date_of_day(day_of_ms(cursor_ms));
            let end = date_of_day(day_of_ms(back));
            &&& end.0 == start.0
            &&& end.1 == start.1
            &&& 1 <= end.2 <= start.2
            &&& hour_of_ms(back) == hour_of_ms(cursor_ms)
            &&& minute_of_ms(back) == minute_of_ms(cursor_ms)
        },
{
    if mode == CalendarViewMode::Week {
        assert(cursor_ms + direction * 7 * MS_PER_DAY + (-direction) * 7 * MS_PER_DAY == cursor_ms)
            by (nonlinear_arith);
    }
    if mode == CalendarViewMode::Day {
        assert(cursor_ms + direction * MS_PER_DAY + (-direction) * MS_PER_DAY == cursor_ms)
            by (nonlinear_arith);
    }
    if mode == CalendarViewMode::Month {
        let start = date_of_day(day_of_ms(cursor_ms));
        lemma_date_of_day(day_of_ms(cursor_ms));
        let h = hour_of_ms(cursor_ms);
        let mi = minute_of_ms(cursor_ms);
        assert(0 <= crate::date_math::ms_of_day(cursor_ms) < MS_PER_DAY);
        let months = start.0 * 12 + start.1 - 1 + direction;
        let y1 = months / 12;
        let m1 = months % 12 + 1;
        let d1 = if start.2 <= month_length(y1, m1) {
            start.2
        } else {
            month_length(y1, m1)
        };
        assert(month_length(y1, m1) >= 28);
        lemma_ymdhm_round_trip(y1, m1, d1, h, mi);
        let mid = step_spec(mode, cursor_ms, direction);
        assert(mid == ymdhm_ms(y1, m1, d1, h, mi));
        let back_months = y1 * 12 + m1 - 1 + (-direction);
        assert(back_months == start.0 * 12 + start.1 - 1);
        assert(back_months / 12 == start.0);
        assert(back_months % 12 + 1 == start.1);
        let d2 = if d1 <= month_length(start.0, start.1) {
            d1
        } else {
            month_length(start.0, start.1)
        };
        assert(month_length(start.0, start.1) >= 28);
        lemma_ymdhm_round_trip(start.0, start.1, d2, h, mi);
    }
}

} // verus!
