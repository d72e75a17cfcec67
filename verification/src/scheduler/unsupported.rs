//! The scheduler of platforms without notifications: nothing is supported and
//! nothing is delivered.
use vstd::prelude::*;

use crate::reminders::ScheduleAction;
use crate::scheduler::{Notification, Permission, SchedulerSupport};

verus! {

/// No background delivery, and notifications are unsupported.
pub fn support() -> (r: SchedulerSupport)
    ensures
        !r.background,
        r.permission == Permission::Unsupported,
{
    SchedulerSupport { background: false, permission: Permission::Unsupported }
}

/// Asking for permission is pointless: notifications are unsupported.
pub fn request_permission() -> (r: Permission)
    ensures
        r == Permission::Unsupported,
{
    Permission::Unsupported
}

/// Showing a notification does nothing.
pub fn notify_now(_notification: Notification) {
}

/// No scheduling action is performed, so none is reported as performed.
pub fn apply(_actions: Vec<ScheduleAction>) -> (r: Vec<ScheduleAction>)
    ensures
        r@.len() == 0,
{
    Vec::new()
}

/// There is no pending notification to clear.
pub fn clear_all() {
}

} // verus!
