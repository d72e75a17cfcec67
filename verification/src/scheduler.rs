//! What the platform's notification scheduler can do, and the decisions of
//! the scheduler backends that do not depend on the platform itself.
use vstd::prelude::*;

pub mod desktop;
pub mod macos;
pub mod unsupported;

verus! {

/// A notification shown to the user right away.
#[derive(Debug, Clone, PartialEq)]
pub struct Notification {
    pub title: String,
    pub body: String,
}

/// Whether the user lets the app show notifications.
#[derive(Debug, Clone, Copy, PartialEq, Eq, Structural)]
pub enum Permission {
    Granted,
    Denied,
    Unsupported,
    Unknown,
}

/// What the platform offers: whether reminders can be delivered while the
/// app is not running, and the notification permission.
#[derive(Debug, Clone, Copy, PartialEq, Eq, Structural)]
pub struct SchedulerSupport {
    pub background: bool,
    pub permission: Permission,
}

impl Default for SchedulerSupport {
    /// Nothing known yet: no background delivery, permission unknown.
    fn default() -> (r: SchedulerSupport)
        ensures
            !r.background,
            r.permission == Permission::Unknown,
    {
        SchedulerSupport { background: false, permission: Permission::Unknown }
    }
}

} // verus!
