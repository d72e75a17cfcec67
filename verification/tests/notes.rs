use lightnotes::date_math::LocalOffset;
use lightnotes::note::Note;
use lightnotes::notes::{
    FilterTitle, FolderIcon, Language, NoteFilter, NotesStore, SyncStatus, Theme, ACCENT_SWATCHES,
};

fn store_for(user: &str) -> NotesStore {
    let mut store = NotesStore::empty();
    store.set_user(user.to_string());
    store
}

fn ids(notes: &[Note]) -> Vec<String> {
    notes.iter().map(|note| note.id.clone()).collect()
}

#[test]
fn an_empty_store_starts_with_the_defaults() {
    let store = NotesStore::empty();
    assert_eq!(store.user_id(), "");
    assert_eq!(store.note_count(), 0);
    assert_eq!(store.filter(), NoteFilter::All);
    assert_eq!(store.search(), "");
    assert_eq!(store.theme(), Theme::Dark);
    assert_eq!(store.accent(), ACCENT_SWATCHES[0]);
    assert_eq!(store.language(), Language::English);
    assert_eq!(store.sync(), SyncStatus::Synced);
    assert_eq!(store.next_id, 1);
    assert_eq!(Theme::Dark.as_str(), "dark");
    assert_eq!(Theme::Light.as_str(), "light");
}

#[test]
fn created_notes_get_sequential_ids_and_go_first() {
    let mut store = store_for("user-1");
    let offset = LocalOffset::new();
    let first = store.create_note(&offset);
    let second = store.create_note(&offset);
    assert_eq!(first, "note-1");
    assert_eq!(second, "note-2");
    assert_eq!(ids(&store.all_notes()), vec!["note-2", "note-1"]);
    let note = store.note("note-1").expect("note-1 exists");
    assert_eq!(note.user_id, "user-1");
    assert_eq!(note.title, "");
    assert_eq!(note.order, 1);
    assert!(!note.pinned && !note.starred);
    assert_eq!(note.remind_before_hours, None);
    assert_eq!(store.next_id, 3);
}

#[test]
fn a_new_note_lands_in_the_filtered_folder_or_tag() {
    let mut store = store_for("user-1");
    let offset = LocalOffset::new();
    store.set_filter(NoteFilter::Folder("folder-9".into()));
    let in_folder = store.create_note(&offset);
    store.set_filter(NoteFilter::Tag("tag-9".into()));
    let with_tag = store.create_note(&offset);
    assert_eq!(store.note(&in_folder).unwrap().folder_id, Some("folder-9".to_string()));
    assert!(store.note(&in_folder).unwrap().tag_ids.is_empty());
    assert_eq!(store.note(&with_tag).unwrap().folder_id, None);
    assert_eq!(store.note(&with_tag).unwrap().tag_ids, vec!["tag-9".to_string()]);
}

#[test]
fn editing_a_note_touches_it_to_the_top_of_the_list() {
    let mut store = store_for("user-1");
    let a = store.create_diary_note(1_000, None, Vec::new());
    let b = store.create_diary_note(2_000, None, Vec::new());
    assert_eq!(ids(&store.visible_notes()), vec![b.clone(), a.clone()]);
    store.set_note_title(&a, "Alpha".into());
    assert_eq!(ids(&store.visible_notes()), vec![a.clone(), b.clone()]);
    let note = store.note(&a).unwrap();
    assert_eq!(note.title, "Alpha");
    assert_eq!(note.order, 3);
    assert_eq!(store.next_id, 4);
}

#[test]
fn pinning_keeps_the_order_but_lists_the_note_first() {
    let mut store = store_for("user-1");
    let a = store.create_diary_note(0, None, Vec::new());
    let b = store.create_diary_note(0, None, Vec::new());
    store.toggle_note_pin(&a);
    assert!(store.note(&a).unwrap().pinned);
    assert_eq!(store.note(&a).unwrap().order, 1);
    assert_eq!(store.next_id, 3);
    assert_eq!(ids(&store.visible_notes()), vec![a.clone(), b.clone()]);
    assert_eq!(store.pinned_count(), 1);
    store.toggle_note_star(&b);
    store.toggle_note_star(&b);
    assert_eq!(store.starred_count(), 0);
    store.toggle_note_star(&b);
    assert_eq!(store.starred_count(), 1);
}

#[test]
fn edits_of_another_users_note_change_nothing_but_the_counter() {
    let mut store = store_for("user-1");
    let id = store.create_diary_note(0, None, Vec::new());
    store.set_user("user-2".into());
    store.set_note_content(&id, "stolen".into());
    assert_eq!(store.note_count(), 0);
    assert_eq!(store.next_id, 3);
    store.set_user("user-1".into());
    assert_eq!(store.note(&id).unwrap().content, "");
}

#[test]
fn note_fields_are_set_one_by_one() {
    let mut store = store_for("user-1");
    let id = store.create_diary_note(0, None, Vec::new());
    store.set_note_content(&id, "body".into());
    store.set_note_folder(&id, Some("folder-1".into()));
    store.set_note_date(&id, 86_400_000);
    store.set_note_remind_before(&id, Some(24));
    let note = store.note(&id).unwrap();
    assert_eq!(note.content, "body");
    assert_eq!(note.folder_id, Some("folder-1".to_string()));
    assert_eq!(note.date_ms, 86_400_000);
    assert_eq!(note.remind_before_hours, Some(24));
    assert_eq!(store.folder_note_count("folder-1"), 1);
}

#[test]
fn a_tag_is_added_once_and_removed_entirely() {
    let mut store = store_for("user-1");
    let id = store.create_diary_note(0, None, Vec::new());
    store.add_note_tag(&id, "tag-1".into());
    store.add_note_tag(&id, "tag-1".into());
    store.add_note_tag(&id, "tag-2".into());
    assert_eq!(store.note(&id).unwrap().tag_ids, vec!["tag-1".to_string(), "tag-2".to_string()]);
    assert_eq!(store.tag_note_count("tag-1"), 1);
    store.remove_note_tag(&id, "tag-1");
    assert_eq!(store.note(&id).unwrap().tag_ids, vec!["tag-2".to_string()]);
    assert_eq!(store.tag_note_count("tag-1"), 0);
}

#[test]
fn deleting_a_note_removes_only_the_users_copy() {
    let mut store = store_for("user-1");
    let id = store.create_diary_note(0, None, Vec::new());
    store.set_user("user-2".into());
    let other = store.create_diary_note(0, None, Vec::new());
    store.set_user("user-1".into());
    store.delete_note(&id);
    store.delete_note(&other);
    assert_eq!(store.note_count(), 0);
    store.set_user("user-2".into());
    assert_eq!(store.note_count(), 1);
}

#[test]
fn search_matches_title_or_content_ignoring_case() {
    let mut store = store_for("user-1");
    let a = store.create_diary_note(0, None, Vec::new());
    let b = store.create_diary_note(0, None, Vec::new());
    store.set_note_title(&a, "Shopping List".into());
    store.set_note_content(&b, "remember the SHOP hours".into());
    store.set_search("shop".into());
    assert_eq!(store.visible_notes().len(), 2);
    store.set_search("list".into());
    assert_eq!(ids(&store.visible_notes()), vec![a.clone()]);
    store.set_filter(NoteFilter::Starred);
    assert_eq!(store.search(), "");
    assert!(store.visible_notes().is_empty());
}

#[test]
fn folders_are_created_renamed_and_deleted() {
    let mut store = store_for("user-1");
    let work = store.create_folder_with_icon("Work".into(), FolderIcon::Briefcase);
    let home = store.create_folder_with_icon("Home".into(), FolderIcon::House);
    assert_eq!(work, "folder-1");
    assert_eq!(home, "folder-2");
    store.rename_folder(&work, "Office".into());
    store.set_folder_icon(&home, FolderIcon::Heart);
    let folders = store.folders();
    assert_eq!(folders.len(), 2);
    assert_eq!(folders[0].name, "Office");
    assert_eq!(folders[1].icon, FolderIcon::Heart);

    let note = store.create_diary_note(0, Some(work.clone()), Vec::new());
    store.set_filter(NoteFilter::Folder(work.clone()));
    assert_eq!(store.filter_title(), FilterTitle::Text("Office".into()));
    store.delete_folder(&work);
    assert_eq!(store.folders().len(), 1);
    assert_eq!(store.note(&note).unwrap().folder_id, None);
    assert_eq!(store.filter(), NoteFilter::All);
    assert_eq!(store.filter_title(), FilterTitle::AllNotes);
}

#[test]
fn tags_are_normalized_and_reused() {
    let mut store = store_for("user-1");
    let first = store.create_tag("  Road Trip ".into());
    assert_eq!(first, "tag-1");
    assert_eq!(store.tag_name(&first), Some("road-trip".to_string()));
    let again = store.create_tag("road trip".into());
    assert_eq!(again, first);
    assert_eq!(store.next_id, 2);
    let by_name = store.tag_id_for_name("ROAD-TRIP");
    assert_eq!(by_name, first);
    let fresh = store.tag_id_for_name("Books");
    assert_eq!(fresh, "tag-2");
    assert_eq!(store.tag_name(&fresh), Some("books".to_string()));
    assert_eq!(store.tags().len(), 2);
}

#[test]
fn deleting_a_tag_takes_it_off_every_note() {
    let mut store = store_for("user-1");
    let tag = store.create_tag("urgent".into());
    let note = store.create_diary_note(0, None, vec![tag.clone()]);
    store.set_filter(NoteFilter::Tag(tag.clone()));
    assert_eq!(store.filter_title(), FilterTitle::Text("#urgent".into()));
    store.delete_tag(&tag);
    assert!(store.note(&note).unwrap().tag_ids.is_empty());
    assert_eq!(store.tag_name(&tag), None);
    assert_eq!(store.filter(), NoteFilter::All);
}

#[test]
fn the_filter_title_names_the_fixed_filters() {
    let mut store = store_for("user-1");
    store.set_filter(NoteFilter::Starred);
    assert_eq!(store.filter_title(), FilterTitle::Starred);
    store.set_filter(NoteFilter::Pinned);
    assert_eq!(store.filter_title(), FilterTitle::Pinned);
    store.set_filter(NoteFilter::Folder("missing".into()));
    assert_eq!(store.filter_title(), FilterTitle::Text(String::new()));
}

#[test]
fn settings_are_set_and_sync_toggles() {
    let mut store = store_for("user-1");
    store.set_theme(Theme::Light);
    store.set_accent(ACCENT_SWATCHES[2].to_string());
    store.set_language(Language::Spanish);
    store.toggle_sync();
    assert_eq!(store.theme(), Theme::Light);
    assert_eq!(store.accent(), "#7db8a0");
    assert_eq!(store.language(), Language::Spanish);
    assert_eq!(store.sync(), SyncStatus::Offline);
    store.toggle_sync();
    assert_eq!(store.sync(), SyncStatus::Synced);
}

#[test]
fn a_snapshot_restores_the_users_notes_and_settings() {
    let mut store = store_for("user-1");
    store.create_diary_note(5, None, Vec::new());
    store.create_folder_with_icon("Work".into(), FolderIcon::Inbox);
    store.create_tag("idea".into());
    store.set_theme(Theme::Light);
    store.set_user("user-2".into());
    store.create_diary_note(6, None, Vec::new());
    store.set_user("user-1".into());

    let saved = store.snapshot();
    assert_eq!(saved.notes.len(), 1);
    assert_eq!(saved.folders.len(), 1);
    assert_eq!(saved.tags.len(), 1);
    assert_eq!(saved.next_id, 5);

    store.clear_synced_entities();
    assert_eq!(store.user_id(), "");
    assert_eq!(store.next_id, 1);
    assert_eq!(store.theme(), Theme::Light);

    store.set_user("user-1".into());
    store.restore(saved);
    assert_eq!(store.note_count(), 1);
    assert_eq!(store.folders().len(), 1);
    assert_eq!(store.tags().len(), 1);
    assert_eq!(store.next_id, 5);
    assert_eq!(store.peek_notes()[0].date_ms, 5);
    assert_eq!(store.peek_user_id(), "user-1");
}
