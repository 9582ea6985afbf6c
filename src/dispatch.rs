use vstd::prelude::*;
use crate::lifecycle::{Effect, HapticKind};

verus! {

/// A call on one of the host's two side-effect channels.
#[derive(Clone, Debug)]
pub enum HostRequest {
    Notification { title: String, body: String, scheduled_at: Option<u64> },
    Haptic(HapticKind),
}

/// The heading of a due-task notification.
pub open spec fn due_heading() -> Seq<char> {
    seq!['T', 'a', 's', 'k', ' ', 'd', 'u', 'e']
}

/// Routes an effect to the host channel that delivers it: a due task becomes a
/// notification headed "Task due" that carries its title and scheduled time;
/// haptic feedback goes to the haptic channel unchanged.
pub fn route(effect: &Effect) -> (r: HostRequest)
    ensures
        *effect matches Effect::NotifyDue(t) ==> r matches HostRequest::Notification { title, body, scheduled_at }
            && title@ == due_heading() && body == t.title && scheduled_at == t.scheduled_time,
        *effect matches Effect::HapticFeedback(k) ==> r == HostRequest::Haptic(k),
{
    match effect {
        Effect::NotifyDue(t) => {
            let title = "Task due".to_owned();
            proof {
                reveal_strlit("Task due");
            }
            HostRequest::Notification { title, body: t.title.clone(), scheduled_at: t.scheduled_time }
        },
        Effect::HapticFeedback(k) => HostRequest::Haptic(*k),
    }
}

} // verus!
