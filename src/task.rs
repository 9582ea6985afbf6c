use vstd::prelude::*;

verus! {

/// One task record. Times are caller-supplied instants (seconds).
#[derive(Clone, Debug)]
pub struct Task {
    pub id: u64,
    pub title: String,
    pub completed: bool,
    pub scheduled_time: Option<u64>,
    pub created_at: u64,
    pub updated_at: u64,
}

/// The fields an update may change; `None` leaves a field as it is.
#[derive(Clone, Debug)]
pub struct TaskPatch {
    pub title: Option<String>,
    pub completed: Option<bool>,
    pub scheduled_time: Option<Option<u64>>,
}

impl Task {
    pub open spec fn wf(&self) -> bool {
        self.updated_at >= self.created_at
    }

    pub fn duplicate(&self) -> (r: Task)
        ensures
            r == *self,
    {
        Task {
            id: self.id,
            title: self.title.clone(),
            completed: self.completed,
            scheduled_time: self.scheduled_time,
            created_at: self.created_at,
            updated_at: self.updated_at,
        }
    }
}

/// The refreshed modification time: `now`, but never before creation.
pub open spec fn refreshed(t: Task, now: u64) -> u64 {
    if now >= t.created_at {
        now
    } else {
        t.created_at
    }
}

/// A task after a patch applied at `now`.
pub open spec fn patched(t: Task, p: TaskPatch, now: u64) -> Task {
    Task {
        id: t.id,
        title: match p.title {
            Some(s) => s,
            None => t.title,
        },
        completed: match p.completed {
            Some(c) => c,
            None => t.completed,
        },
        scheduled_time: match p.scheduled_time {
            Some(s) => s,
            None => t.scheduled_time,
        },
        created_at: t.created_at,
        updated_at: refreshed(t, now),
    }
}

/// Applies a patch to a task at `now`.
pub fn apply_patch(t: Task, p: TaskPatch, now: u64) -> (r: Task)
    ensures
        r == patched(t, p, now),
{
    let TaskPatch { title, completed, scheduled_time } = p;
    let updated_at = if now >= t.created_at { now } else { t.created_at };
    let Task { id, title: old_title, completed: old_completed, scheduled_time: old_time, created_at, .. } = t;
    let r = Task {
        id,
        title: match title {
            Some(s) => s,
            None => old_title,
        },
        completed: match completed {
            Some(c) => c,
            None => old_completed,
        },
        scheduled_time: match scheduled_time {
            Some(s) => s,
            None => old_time,
        },
        created_at,
        updated_at,
    };
    r
}

} // verus!
