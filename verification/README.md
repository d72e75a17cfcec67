# lightnotes

The logic of a notes and diary app, verified with Verus.

- `src/date_math.rs`: the proleptic Gregorian calendar, day keys, local
  offsets, and the date and time texts of the editor.
- `src/notes.rs`, `src/notes_laws.rs`: the notes store (notes, folders,
  tags, filter, search, settings) and the laws its operations obey.
- `src/diary.rs`, `src/diary_entries.rs`, `src/snippet.rs`: the diary's
  calendar grid, period labels and moves, and its list of entries.
- `src/reminders.rs`, `src/reminder_runs.rs`, `src/delivery.rs`,
  `src/local_store.rs`, `src/scheduler/`: reminder planning, the
  reconciliation of the platform schedule, and delivery while the app runs.
- `src/labels.rs`, `src/settings.rs`, `src/root_shell.rs`: what the
  interface's labels and settings panel show, before wording, and the
  sign-in gate.
- `app/`: a desktop runner around the library (preferences and notes files,
  desktop notifications, the delivery loop, English wording).

Not in the library: the app's encrypted SQLite store (connection,
migrations, queries, the outbound queue, sessions and device identity) and
the sync client. The library holds what that store decides and computes:
the outcome and writes of applying a synced change (`apply_plan`), the notes
its rows hold (`note_from_row`, with the stored tag list read by
`serde_json`), and the reminder schedules it keeps (`records_of`,
`schedule_write`).
