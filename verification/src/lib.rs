//! The verified logic of a notes and diary app: its calendar arithmetic, its
//! notes store, its diary views, and the planning and delivery of reminders.
pub mod clock;
pub mod date_math;
pub mod delivery;
pub mod diary;
pub mod diary_entries;
pub mod labels;
pub mod local_store;
pub mod note;
pub mod notes;
pub mod notes_laws;
pub mod reminder_runs;
pub mod reminders;
pub mod root_shell;
pub mod scheduler;
pub mod settings;
pub mod snippet;
pub mod sorting;
pub mod text;
