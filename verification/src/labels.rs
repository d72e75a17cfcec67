//! What the interface's time and reminder labels say, before they are put
//! into words of the user's language.
use vstd::prelude::*;

use crate::clock::now_ms;
use crate::date_math::{
    date_ms_to_ymdhm, date_of_day, day_of_ms, hour_of_ms, minute_of_ms, MS_PER_DAY, MS_PER_HOUR,
    MS_PER_MINUTE,
};
use crate::note::Note;
use crate::text::{trim, trim_spec};

verus! {

/// How a reminder setting reads.
#[derive(Debug, Clone, Copy, PartialEq, Eq, Structural)]
pub enum ReminderLabel {
    /// No reminder is set.
    Unset,
    /// At the note's time.
    AtTheTime,
    /// This many hours before.
    HoursBefore(i64),
    /// This many weeks before.
    WeeksBefore(i64),
    /// This many days before.
    DaysBefore(i64),
}

/// The label of a reminder set `hours` before a note's date: hours below a
/// day, whole weeks, or otherwise whole days (rounded down).
pub open spec fn reminder_label_spec(hours: Option<i64>) -> ReminderLabel {
    match hours {
        None => ReminderLabel::Unset,
        Some(h) => if h == 0 {
            ReminderLabel::AtTheTime
        } else if h < 24 {
            ReminderLabel::HoursBefore(h)
        } else if h % 168 == 0 {
            ReminderLabel::WeeksBefore((h / 168) as i64)
        } else {
            ReminderLabel::DaysBefore((h / 24) as i64)
        },
    }
}

fn reminder_label(hours: Option<i64>) -> (r: ReminderLabel)
    ensures
        r == reminder_label_spec(hours),
{
    match hours {
        None => ReminderLabel::Unset,
        Some(h) => if h == 0 {
            ReminderLabel::AtTheTime
        } else if h < 24 {
            ReminderLabel::HoursBefore(h)
        } else if h % 168 == 0 {
            ReminderLabel::WeeksBefore(h / 168)
        } else {
            ReminderLabel::DaysBefore(h / 24)
        },
    }
}

/// What the reminder button of a note says.
pub fn remind_label(hours: Option<i64>) -> (r: ReminderLabel)
    ensures
        r == reminder_label_spec(hours),
{
    reminder_label(hours)
}

/// What a choice of the reminder menu says.
pub fn choice_label(hours: Option<i64>) -> (r: ReminderLabel)
    ensures
        r == reminder_label_spec(hours),
{
    reminder_label(hours)
}

/// How long ago something changed.
#[derive(Debug, Clone, Copy, PartialEq, Eq, Structural)]
pub enum RelativeTime {
    JustNow,
    MinutesAgo(i64),
    HoursAgo(i64),
    Yesterday,
    DaysAgo(i64),
    WeeksAgo(i64),
}

/// How long ago `elapsed_ms` milliseconds is (a negative time counts as
/// none): under a minute, minutes under an hour, hours under a day, one day,
/// days under a week, else whole weeks.
pub open spec fn relative_time_spec(elapsed_ms: int) -> RelativeTime {
    let elapsed = if elapsed_ms < 0 {
        0
    } else {
        elapsed_ms
    };
    let minutes = elapsed / (MS_PER_MINUTE as int);
    let hours = elapsed / (MS_PER_HOUR as int);
    let days = elapsed / (MS_PER_DAY as int);
    if minutes < 1 {
        RelativeTime::JustNow
    } else if minutes < 60 {
        RelativeTime::MinutesAgo(minutes as i64)
    } else if hours < 24 {
        RelativeTime::HoursAgo(hours as i64)
    } else if days == 1 {
        RelativeTime::Yesterday
    } else if days < 7 {
        RelativeTime::DaysAgo(days as i64)
    } else {
        RelativeTime::WeeksAgo(
            if days / 7 < 1 {
                1
            } else {
                (days / 7) as i64
            },
        )
    }
}

/// What a label of how long ago says of the elapsed time `elapsed_ms` (a
/// negative time counting as none): "just now" under a minute; the whole
/// minutes under an hour; the whole hours under a day; "yesterday" from one
/// day up to two; the whole days from two days up to a week; from a week on,
/// the whole weeks.
pub open spec fn relative_time_means(elapsed_ms: int, r: RelativeTime) -> bool {
    let e = if elapsed_ms < 0 {
        0
    } else {
        elapsed_ms
    };
    match r {
        RelativeTime::JustNow => e < 60_000,
        RelativeTime::MinutesAgo(m) => 60_000 <= e < 3_600_000 && m * 60_000 <= e < (m + 1)
            * 60_000,
        RelativeTime::HoursAgo(h) => 3_600_000 <= e < 86_400_000 && h * 3_600_000 <= e < (h + 1)
            * 3_600_000,
        RelativeTime::Yesterday => 86_400_000 <= e < 2 * 86_400_000,
        RelativeTime::DaysAgo(d) => 2 * 86_400_000 <= e < 7 * 86_400_000 && d * 86_400_000 <= e
            < (d + 1) * 86_400_000,
        RelativeTime::WeeksAgo(w) => 7 * 86_400_000 <= e && w * 604_800_000 <= e < (w + 1)
            * 604_800_000,
    }
}

/// Every label of how long ago says what `relative_time_means` asks of the
/// elapsed time, so it names the range the time falls in.
pub proof fn lemma_relative_time_meaning(elapsed_ms: int)
    requires
        i64::MIN <= elapsed_ms <= i64::MAX,
    ensures
        relative_time_means(elapsed_ms, relative_time_spec(elapsed_ms)),
{
    let e = if elapsed_ms < 0 {
        0
    } else {
        elapsed_ms
    };
    let minutes = e / 60_000;
    let hours = e / 3_600_000;
    let days = e / 86_400_000;
    let weeks = e / 604_800_000;
    assert(minutes * 60_000 <= e < (minutes + 1) * 60_000);
    assert(hours * 3_600_000 <= e < (hours + 1) * 3_600_000);
    assert(days * 86_400_000 <= e < (days + 1) * 86_400_000);
    assert(weeks * 604_800_000 <= e < (weeks + 1) * 604_800_000);
    assert(days / 7 == weeks) by {
        vstd::arithmetic::div_mod::lemma_div_denominator(e, 86_400_000, 7);
    }
    assert(minutes < 1 <==> e < 60_000);
    assert(minutes < 60 <==> e < 3_600_000);
    assert(hours < 24 <==> e < 86_400_000);
    assert(days == 1 <==> 86_400_000 <= e < 2 * 86_400_000);
    assert(days < 7 <==> e < 7 * 86_400_000);
}

/// How long ago `elapsed_ms` milliseconds is.
pub fn relative_time(elapsed_ms: i64) -> (r: RelativeTime)
    ensures
        r == relative_time_spec(elapsed_ms as int),
        relative_time_means(elapsed_ms as int, r),
{
    proof {
        lemma_relative_time_meaning(elapsed_ms as int);
    }
    let elapsed = if elapsed_ms < 0 {
        0
    } else {
        elapsed_ms
    };
    let minutes = elapsed / MS_PER_MINUTE;
    let hours = elapsed / MS_PER_HOUR;
    let days = elapsed / MS_PER_DAY;
    if minutes < 1 {
        RelativeTime::JustNow
    } else if minutes < 60 {
        RelativeTime::MinutesAgo(minutes)
    } else if hours < 24 {
        RelativeTime::HoursAgo(hours)
    } else if days == 1 {
        RelativeTime::Yesterday
    } else if days < 7 {
        RelativeTime::DaysAgo(days)
    } else {
        RelativeTime::WeeksAgo(
            if days / 7 < 1 {
                1
            } else {
                days / 7
            },
        )
    }
}

/// `x` clamped to the range of `i64`.
pub open spec fn clamp_i64(x: int) -> int {
    if x < i64::MIN {
        i64::MIN as int
    } else if x > i64::MAX {
        i64::MAX as int
    } else {
        x
    }
}

/// How long ago an update at `updated_at_ms` was, seen at `now_ms` (the
/// elapsed time is clamped to the range of `i64`).
pub fn relative_time_at(now_ms: i64, updated_at_ms: i64) -> (r: RelativeTime)
    ensures
        r == relative_time_spec(clamp_i64(now_ms - updated_at_ms)),
        relative_time_means(clamp_i64(now_ms - updated_at_ms), r),
{
    let elapsed = match now_ms.checked_sub(updated_at_ms) {
        Some(v) => v,
        None => if updated_at_ms < 0 {
            i64::MAX
        } else {
            i64::MIN
        },
    };
    relative_time(elapsed)
}

/// How long ago an update at `updated_at_ms` was, by the system clock: what
/// `relative_time_at` says at the clock's reading.
pub fn format_relative_time(updated_at_ms: i64) -> (r: RelativeTime)
    ensures
        exists|now: i64| r == #[trigger] relative_time_spec(clamp_i64(now - updated_at_ms)),
{
    let now = now_ms();
    let r = relative_time_at(now, updated_at_ms);
    assert(r == relative_time_spec(clamp_i64(now - updated_at_ms)));
    r
}

/// An instant as the interface writes it out: day, month, and the time on a
/// twelve-hour clock.
#[derive(Debug, Clone, Copy, PartialEq, Eq, Structural)]
pub struct AbsoluteTime {
    pub day: u32,
    pub month: u32,
    /// 1..=12.
    pub hour12: u32,
    pub minute: u32,
    /// After noon.
    pub pm: bool,
}

pub open spec fn absolute_time_spec(ms: int) -> AbsoluteTime {
    let date = date_of_day(day_of_ms(ms));
    let hour = hour_of_ms(ms);
    AbsoluteTime {
        day: date.2 as u32,
        month: date.1 as u32,
        hour12: if hour % 12 == 0 {
            12
        } else {
            (hour % 12) as u32
        },
        minute: minute_of_ms(ms) as u32,
        pm: hour >= 12,
    }
}

/// The parts of an instant as the interface writes it out.
pub fn format_absolute(ms: i64) -> (r: AbsoluteTime)
    ensures
        r == absolute_time_spec(ms as int),
        1 <= r.hour12 <= 12,
        r.minute < 60,
{
    let (_, month, day, hour24, minute) = date_ms_to_ymdhm(ms);
    proof {
        assert(0 <= crate::date_math::ms_of_day(ms as int) < MS_PER_DAY);
    }
    let hour12 = if hour24 % 12 == 0 {
        12
    } else {
        hour24 % 12
    };
    AbsoluteTime { day, month, hour12, minute, pm: hour24 >= 12 }
}

/// The title a notification shows: the text trimmed, or `None` when nothing
/// is left (the interface then says the note is untitled).
pub open spec fn shown_title_spec(title: Seq<char>) -> Option<Seq<char>> {
    if trim_spec(title).len() == 0 {
        None
    } else {
        Some(trim_spec(title))
    }
}

/// The title a notification shows for a text.
pub fn shown_title(title: &str) -> (r: Option<String>)
    ensures
        match shown_title_spec(title@) {
            Some(t) => r matches Some(s) && s@ == t,
            None => r is None,
        },
{
    let trimmed = trim(title);
    if trimmed.as_str().is_empty() {
        None
    } else {
        Some(trimmed)
    }
}

/// The title a notification about a note shows.
pub fn notification_title(note: &Note) -> (r: Option<String>)
    ensures
        match shown_title_spec(note.title@) {
            Some(t) => r matches Some(s) && s@ == t,
            None => r is None,
        },
{
    shown_title(note.title.as_str())
}

/// The reminder choices the menu offers, in hours before the note's date:
/// none, at the time, 1, 2, 3, 6, 12 hours, 1 and 2 days, and a week.
pub fn remind_choices() -> (r: Vec<Option<i64>>)
    ensures
        r@ == seq![
            None,
            Some(0i64),
            Some(1i64),
            Some(2i64),
            Some(3i64),
            Some(6i64),
            Some(12i64),
            Some(24i64),
            Some(48i64),
            Some(168i64),
        ],
{
    let r = vec![None, Some(0), Some(1), Some(2), Some(3), Some(6), Some(12), Some(24), Some(48), Some(168)];
    assert(r@ =~= seq![
        None,
        Some(0i64),
        Some(1i64),
        Some(2i64),
        Some(3i64),
        Some(6i64),
        Some(12i64),
        Some(24i64),
        Some(48i64),
        Some(168i64),
    ]);
    r
}

} // verus!
