use lightnotes::date_math::{day_key, ymdhm_to_date_ms, LocalOffset, MS_PER_DAY};
use lightnotes::diary::{step_cursor, CalendarViewMode, DiaryCalendarState, DiaryUiState, PeriodLabel};
use lightnotes::diary_entries::{DayHeader, DiaryEntryListState};
use lightnotes::notes::{FolderIcon, NotesStore};
use lightnotes::snippet::snippet;

fn ui_at(mode: CalendarViewMode, cursor_date_ms: i64) -> DiaryUiState {
    DiaryUiState {
        view_mode: mode,
        cursor_date_ms,
        calendar_open: true,
        filter_open: false,
        filter_folder: None,
        filter_tag: None,
    }
}

fn diary_store() -> NotesStore {
    let mut store = NotesStore::empty();
    store.set_user("user-1".into());
    let morning = store.create_diary_note(ymdhm_to_date_ms(2026, 8, 12, 9, 5), None, Vec::new());
    store.set_note_title(&morning, "Morning".into());
    store.set_note_content(&morning, "# Plans\n- walk\r\n> quote\n".into());
    let evening = store.create_diary_note(ymdhm_to_date_ms(2026, 8, 12, 21, 30), None, Vec::new());
    store.set_note_remind_before(&evening, Some(1));
    store.create_diary_note(ymdhm_to_date_ms(2026, 8, 10, 8, 0), None, Vec::new());
    store.create_diary_note(ymdhm_to_date_ms(2026, 9, 5, 8, 0), None, Vec::new());
    store
}

#[test]
fn the_diary_opens_on_the_month_view() {
    let ui = DiaryUiState::seed(&LocalOffset::new());
    assert_eq!(ui.view_mode, CalendarViewMode::Month);
    assert!(!ui.calendar_open && !ui.filter_open);
    assert!(ui.filter_folder.is_none() && ui.filter_tag.is_none());
}

#[test]
fn the_month_grid_starts_on_the_monday_before_the_first() {
    let cursor = ymdhm_to_date_ms(2026, 8, 12, 10, 0);
    let calendar = DiaryCalendarState { store: diary_store(), diary_ui: ui_at(CalendarViewMode::Month, cursor), is_mobile: false };
    let cells = calendar.month_cells_at(20_677);
    assert_eq!(cells.len(), 42);
    assert_eq!(cells[0].day_key, 20_661);
    assert_eq!(cells[0].label, "27");
    assert_eq!(cells[0].weekday_index, 0);
    assert!(!cells[0].in_current_month);
    assert!(cells[5].in_current_month);
    assert_eq!(cells[5].label, "1");
    let twelfth = &cells[16];
    assert_eq!(twelfth.day_key, 20_677);
    assert!(twelfth.is_selected && twelfth.is_today && twelfth.has_notes && twelfth.has_reminder);
    let tenth = &cells[14];
    assert!(tenth.has_notes && !tenth.has_reminder && !tenth.is_today);
    assert!(!cells[41].in_current_month);
}

#[test]
fn the_week_row_runs_monday_to_sunday() {
    let cursor = ymdhm_to_date_ms(2026, 8, 12, 10, 0);
    let calendar = DiaryCalendarState { store: diary_store(), diary_ui: ui_at(CalendarViewMode::Week, cursor), is_mobile: false };
    let cells = calendar.week_cells_at(0);
    assert_eq!(cells.len(), 7);
    assert_eq!(cells[0].day_key, 20_675);
    assert_eq!(cells[2].day_key, 20_677);
    assert!(cells.iter().all(|cell| cell.in_current_month && !cell.is_today));
    assert!(cells[0].has_notes && cells[2].has_notes && !cells[1].has_notes);
    assert_eq!(
        calendar.header_label(),
        PeriodLabel::Week { start_day: 10, start_month: 8, end_day: 16, end_month: 8, end_year: 2026 }
    );
}

#[test]
fn labels_name_the_period() {
    let cursor = ymdhm_to_date_ms(2026, 8, 12, 10, 0);
    let mut calendar = DiaryCalendarState { store: NotesStore::empty(), diary_ui: ui_at(CalendarViewMode::Month, cursor), is_mobile: false };
    assert_eq!(calendar.header_label(), PeriodLabel::Month { month: 8, year: 2026 });
    calendar.set_view(CalendarViewMode::Day);
    assert_eq!(calendar.header_label(), PeriodLabel::Day { weekday: 2, day: 12, month: 8, year: 2026 });
}

#[test]
fn selecting_a_day_shows_it() {
    let mut calendar = DiaryCalendarState { store: NotesStore::empty(), diary_ui: ui_at(CalendarViewMode::Month, 0), is_mobile: false };
    calendar.select_day(20_677);
    assert_eq!(calendar.cursor_date_ms(), 20_677 * MS_PER_DAY);
    assert_eq!(calendar.view_mode(), CalendarViewMode::Day);
    assert!(!calendar.calendar_open());
}

#[test]
fn stepping_months_clamps_the_day() {
    let jan_31 = ymdhm_to_date_ms(2026, 1, 31, 7, 45);
    assert_eq!(step_cursor(CalendarViewMode::Month, jan_31, 1), ymdhm_to_date_ms(2026, 2, 28, 7, 45));
    assert_eq!(step_cursor(CalendarViewMode::Month, jan_31, -1), ymdhm_to_date_ms(2025, 12, 31, 7, 45));
    assert_eq!(step_cursor(CalendarViewMode::Month, jan_31, 13), ymdhm_to_date_ms(2027, 2, 28, 7, 45));
    assert_eq!(step_cursor(CalendarViewMode::Month, ymdhm_to_date_ms(2024, 3, 31, 0, 0), -1), ymdhm_to_date_ms(2024, 2, 29, 0, 0));
    assert_eq!(step_cursor(CalendarViewMode::Day, jan_31, 1), ymdhm_to_date_ms(2026, 2, 1, 7, 45));
    assert_eq!(step_cursor(CalendarViewMode::Week, jan_31, -2), ymdhm_to_date_ms(2026, 1, 17, 7, 45));

    let mut calendar = DiaryCalendarState { store: NotesStore::empty(), diary_ui: ui_at(CalendarViewMode::Month, jan_31), is_mobile: false };
    calendar.step(1);
    assert_eq!(calendar.cursor_date_ms(), ymdhm_to_date_ms(2026, 2, 28, 7, 45));
}

#[test]
fn the_entry_list_shows_the_period_newest_first_with_day_headers() {
    let cursor = ymdhm_to_date_ms(2026, 8, 12, 10, 0);
    let list = DiaryEntryListState { store: diary_store(), diary_ui: ui_at(CalendarViewMode::Month, cursor), is_mobile: false, ready: true };
    let rows = list.entries_at(Some("note-1"), day_key(cursor));
    assert_eq!(rows.len(), 3);
    assert_eq!(rows[0].id, "note-4");
    assert_eq!(rows[0].time_label, "21:30");
    assert!(rows[0].has_reminder && rows[0].show_day_header);
    assert_eq!(rows[0].day_header, DayHeader { is_today: true, weekday: 2, day_of_month: 12, month: 8 });
    assert_eq!(rows[1].id, "note-1");
    assert_eq!(rows[1].title, "Morning");
    assert_eq!(rows[1].snippet, "Plans walk quote");
    assert_eq!(rows[1].time_label, "09:05");
    assert!(rows[1].is_active && !rows[1].show_day_header);
    assert_eq!(rows[2].id, "note-6");
    assert!(rows[2].show_day_header && !rows[2].day_header.is_today);

    let day_list = DiaryEntryListState { store: diary_store(), diary_ui: ui_at(CalendarViewMode::Day, cursor), is_mobile: false, ready: true };
    let day_rows = day_list.entries_at(None, 0);
    assert_eq!(day_rows.len(), 2);
    assert!(day_rows.iter().all(|row| !row.show_day_header && !row.is_active));
}

#[test]
fn the_entry_list_follows_the_folder_and_tag_filters() {
    let mut store = diary_store();
    let folder = store.create_folder_with_icon("Journal".into(), FolderIcon::Notebook);
    let tag = store.create_tag("travel".into());
    let id = store.create_diary_note(ymdhm_to_date_ms(2026, 8, 3, 12, 0), Some(folder.clone()), vec![tag.clone()]);
    let cursor = ymdhm_to_date_ms(2026, 8, 12, 10, 0);
    let mut list = DiaryEntryListState { store, diary_ui: ui_at(CalendarViewMode::Month, cursor), is_mobile: false, ready: true };
    list.set_filter_folder(Some(folder.clone()));
    let rows = list.entries_at(None, 0);
    assert_eq!(rows.len(), 1);
    assert_eq!(rows[0].id, id);
    assert_eq!(rows[0].folder_name, "Journal");
    list.set_filter_tag(Some(tag.clone()));
    let summary = list.filter_summary();
    assert_eq!(summary.folder_name, Some("Journal".to_string()));
    assert_eq!(summary.tag_name, Some("travel".to_string()));
    list.clear_filters();
    assert_eq!(list.entries_at(None, 0).len(), 4);
    let summary = list.filter_summary();
    assert!(summary.folder_name.is_none() && summary.tag_name.is_none());
}

#[test]
fn a_new_entry_takes_the_cursor_date_and_the_filters() {
    let cursor = ymdhm_to_date_ms(2026, 8, 12, 10, 0);
    let mut ui = ui_at(CalendarViewMode::Day, cursor);
    ui.filter_folder = Some("folder-1".into());
    ui.filter_tag = Some("tag-1".into());
    let mut store = NotesStore::empty();
    store.set_user("user-1".into());
    let mut list = DiaryEntryListState { store, diary_ui: ui, is_mobile: false, ready: true };
    let id = list.create_entry();
    let note = list.store.note(&id).unwrap();
    assert_eq!(note.date_ms, cursor);
    assert_eq!(note.folder_id, Some("folder-1".to_string()));
    assert_eq!(note.tag_ids, vec!["tag-1".to_string()]);
    assert_eq!(list.period_label(), PeriodLabel::Day { weekday: 2, day: 12, month: 8, year: 2026 });
}

#[test]
fn snippets_strip_markdown_and_cut_long_text() {
    assert_eq!(snippet(""), "");
    assert_eq!(snippet("## Title\n\n* item one\n  - nested"), "Title  item one nested");
    assert_eq!(snippet("line\r\nnext\r"), "line next\r");
    assert_eq!(snippet("trailing\n"), "trailing");
    let long: String = "x".repeat(200);
    assert_eq!(snippet(&long).chars().count(), 120);
    assert_eq!(snippet("ünïcödé ✓"), "ünïcödé ✓");
}

#[test]
fn stepping_forth_and_back_returns_to_the_month() {
    let jan_31 = ymdhm_to_date_ms(2026, 1, 31, 7, 45);
    let there = step_cursor(CalendarViewMode::Month, jan_31, 1);
    assert_eq!(step_cursor(CalendarViewMode::Month, there, -1), ymdhm_to_date_ms(2026, 1, 28, 7, 45));
    let mid = ymdhm_to_date_ms(2026, 5, 15, 23, 59);
    assert_eq!(step_cursor(CalendarViewMode::Month, step_cursor(CalendarViewMode::Month, mid, 7), -7), mid);
    assert_eq!(step_cursor(CalendarViewMode::Week, step_cursor(CalendarViewMode::Week, mid, 3), -3), mid);
    assert_eq!(step_cursor(CalendarViewMode::Day, step_cursor(CalendarViewMode::Day, mid, -40), 40), mid);
}
