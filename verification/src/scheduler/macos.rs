//! The decisions of the macOS scheduler, whose notification centre reports an
//! authorization status and delivers scheduled reminders in the background.
use vstd::prelude::*;

use crate::date_math::{
    date_ms_to_ymdhm, date_of_day, day_of_ms, hour_of_ms, lemma_day_of_ms_in_range,
    lemma_year_in_range, minute_of_ms,
};
use crate::reminders::ScheduleAction;
use crate::scheduler::{Permission, SchedulerSupport};

verus! {

/// The authorization status the notification centre reports.
#[derive(Debug, Clone, Copy, PartialEq, Eq, Structural)]
pub enum AuthorizationStatus {
    NotDetermined,
    Denied,
    Authorized,
    Provisional,
    Ephemeral,
}

/// Authorized and provisional statuses grant the permission, a denied status
/// denies it, and any other status leaves it unknown.
pub fn permission_of(status: AuthorizationStatus) -> (r: Permission)
    ensures
        (status == AuthorizationStatus::Authorized || status == AuthorizationStatus::Provisional)
            ==> r == Permission::Granted,
        status == AuthorizationStatus::Denied ==> r == Permission::Denied,
        (status == AuthorizationStatus::NotDetermined || status == AuthorizationStatus::Ephemeral)
            ==> r == Permission::Unknown,
{
    match status {
        AuthorizationStatus::Authorized | AuthorizationStatus::Provisional => Permission::Granted,
        AuthorizationStatus::Denied => Permission::Denied,
        _ => Permission::Unknown,
    }
}

/// Support given the status the centre reported, if the app runs from an
/// application bundle; otherwise there is no background delivery and the
/// permission is the one of the desktop fallback.
pub fn support(status: Option<AuthorizationStatus>, fallback: Permission) -> (r: SchedulerSupport)
    ensures
        match status {
            Some(s) => r.permission == permission_of_spec(s) && r.background == (r.permission
                == Permission::Granted),
            None => !r.background && r.permission == fallback,
        },
{
    match status {
        Some(s) => {
            let permission = permission_of(s);
            SchedulerSupport { background: permission == Permission::Granted, permission }
        },
        None => SchedulerSupport { background: false, permission: fallback },
    }
}

pub open spec fn permission_of_spec(status: AuthorizationStatus) -> Permission {
    match status {
        AuthorizationStatus::Authorized | AuthorizationStatus::Provisional => Permission::Granted,
        AuthorizationStatus::Denied => Permission::Denied,
        _ => Permission::Unknown,
    }
}

/// The permission an authorization request gives: unsupported without a
/// notification centre; else granted or denied as the user answered, and
/// unknown when no answer came back.
pub fn permission_from_request(center_available: bool, answer: Option<bool>) -> (r: Permission)
    ensures
        !center_available ==> r == Permission::Unsupported,
        center_available && answer == Some(true) ==> r == Permission::Granted,
        center_available && answer == Some(false) ==> r == Permission::Denied,
        center_available && answer is None ==> r == Permission::Unknown,
{
    if !center_available {
        return Permission::Unsupported;
    }
    match answer {
        Some(true) => Permission::Granted,
        Some(false) => Permission::Denied,
        None => Permission::Unknown,
    }
}

/// The actions the notification centre carried out: all of them when there
/// is a centre, none otherwise.
pub fn apply(center_available: bool, actions: Vec<ScheduleAction>) -> (r: Vec<ScheduleAction>)
    ensures
        center_available ==> r@ == actions@,
        !center_available ==> r@.len() == 0,
{
    if center_available {
        actions
    } else {
        Vec::new()
    }
}

/// The calendar fields a reminder's trigger matches: the local date, hour
/// and minute at which it fires, at second zero.
#[derive(Debug, Clone, Copy, PartialEq, Eq, Structural)]
pub struct TriggerComponents {
    pub year: i32,
    pub month: u32,
    pub day: u32,
    pub hour: u32,
    pub minute: u32,
    pub second: u32,
}

/// The calendar fields of the trigger of a reminder firing at
/// `fire_at_local_ms`.
pub fn trigger_for(fire_at_local_ms: i64) -> (r: TriggerComponents)
    ensures
        r.year == date_of_day(day_of_ms(fire_at_local_ms as int)).0,
        r.month == date_of_day(day_of_ms(fire_at_local_ms as int)).1,
        r.day == date_of_day(day_of_ms(fire_at_local_ms as int)).2,
        r.hour == hour_of_ms(fire_at_local_ms as int),
        r.minute == minute_of_ms(fire_at_local_ms as int),
        r.second == 0,
{
    proof {
        lemma_day_of_ms_in_range(fire_at_local_ms);
        lemma_year_in_range(day_of_ms(fire_at_local_ms as int));
    }
    let (year, month, day, hour, minute) = date_ms_to_ymdhm(fire_at_local_ms);
    TriggerComponents { year, month, day, hour, minute, second: 0 }
}

} // verus!
