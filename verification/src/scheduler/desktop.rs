//! The decisions of the desktop scheduler: notifications are shown by the
//! app while it runs, so there is no background delivery, and the permission
//! is granted until the desktop refuses a notification.
use vstd::prelude::*;

use crate::reminders::ScheduleAction;
use crate::scheduler::{Permission, SchedulerSupport};

verus! {

/// The permission, given whether the desktop has refused a notification.
pub fn permission(delivery_refused: bool) -> (r: Permission)
    ensures
        delivery_refused ==> r == Permission::Denied,
        !delivery_refused ==> r == Permission::Granted,
{
    match delivery_refused {
        true => Permission::Denied,
        false => Permission::Granted,
    }
}

/// No background delivery; the permission follows refused deliveries.
pub fn support(delivery_refused: bool) -> (r: SchedulerSupport)
    ensures
        !r.background,
        r.permission == (if delivery_refused {
            Permission::Denied
        } else {
            Permission::Granted
        }),
{
    SchedulerSupport { background: false, permission: permission(delivery_refused) }
}

/// The permission cannot be asked for; it is what refused deliveries say.
pub fn request_permission(delivery_refused: bool) -> (r: Permission)
    ensures
        r == (if delivery_refused {
            Permission::Denied
        } else {
            Permission::Granted
        }),
{
    permission(delivery_refused)
}

/// Nothing is scheduled ahead on the desktop, so no action is performed.
pub fn apply(_actions: Vec<ScheduleAction>) -> (r: Vec<ScheduleAction>)
    ensures
        r@.len() == 0,
{
    Vec::new()
}

/// There is no pending notification to clear.
pub fn clear_all() {
}

/// What the desktop notifier remembers of its deliveries: whether the
/// desktop has refused one.
pub struct DeliveryRecord {
    pub refused: bool,
}

/// Whether a refusal was seen, starting from `refused` and going through
/// the delivery outcomes in order (`false` for a refused delivery).
pub open spec fn refused_after(refused: bool, outcomes: Seq<bool>) -> bool
    decreases outcomes.len(),
{
    if outcomes.len() == 0 {
        refused
    } else {
        refused_after(refused, outcomes.drop_last()) || !outcomes.last()
    }
}

impl DeliveryRecord {
    /// Nothing delivered yet.
    pub fn new() -> (r: Self)
        ensures
            !r.refused,
    {
        DeliveryRecord { refused: false }
    }

    /// Notes how a delivery went; a refusal is remembered for good.
    pub fn note_delivery(&mut self, delivered: bool)
        ensures
            final(self).refused == (old(self).refused || !delivered),
    {
        if !delivered {
            self.refused = true;
        }
    }

    /// The permission the deliveries so far show.
    pub fn permission(&self) -> (r: Permission)
        ensures
            r == (if self.refused {
                Permission::Denied
            } else {
                Permission::Granted
            }),
    {
        permission(self.refused)
    }
}

/// Once the desktop refuses a delivery, the permission stays denied whatever
/// deliveries follow; until then it is granted.
pub proof fn lemma_refusal_sticks(refused: bool, outcomes: Seq<bool>, i: int)
    requires
        0 <= i < outcomes.len(),
        !outcomes[i],
    ensures
        refused_after(refused, outcomes),
        refused_after(refused, outcomes.take(i + 1)),
    decreases outcomes.len(),
{
    if i < outcomes.len() - 1 {
        assert(outcomes.drop_last()[i] == outcomes[i]);
        lemma_refusal_sticks(refused, outcomes.drop_last(), i);
        assert(outcomes.drop_last().take(i + 1) =~= outcomes.take(i + 1));
    } else {
        assert(outcomes.take(i + 1) =~= outcomes);
    }
}

/// Without a refusal, the permission stays granted.
pub proof fn lemma_no_refusal(outcomes: Seq<bool>)
    requires
        forall|i: int| 0 <= i < outcomes.len() ==> #[trigger] outcomes[i],
    ensures
        !refused_after(false, outcomes),
    decreases outcomes.len(),
{
    if outcomes.len() > 0 {
        assert forall|i: int| 0 <= i < outcomes.drop_last().len() implies #[trigger] outcomes.drop_last()[i] by {
            assert(outcomes.drop_last()[i] == outcomes[i]);
        }
        lemma_no_refusal(outcomes.drop_last());
        assert(outcomes[outcomes.len() - 1]);
    }
}

} // verus!
