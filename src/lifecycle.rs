use vstd::prelude::*;
use crate::store::{StoreError, TaskStore, insert_pos, lemma_insert_pos, lemma_task_index, task_index, tasks_wf};
use crate::task::{Task, TaskPatch, patched};

verus! {

#[derive(Clone, Copy, Debug, PartialEq, Eq, Structural)]
pub enum HapticKind {
    Success,
}

/// A one-shot side-effect request produced by a lifecycle operation.
#[derive(Clone, Debug)]
pub enum Effect {
    NotifyDue(Task),
    HapticFeedback(HapticKind),
}

#[derive(Clone, Copy, Debug, PartialEq, Eq, Structural)]
pub enum LifecycleError {
    /// An error of the task store, passed on unchanged.
    Store(StoreError),
    AlreadyCompleted(u64),
    NotCompleted(u64),
    /// Every id has been handed out.
    IdsExhausted,
}

/// Whether a task is due for a notice at time `now`: its scheduled time is at
/// or before `now`, it is open, and its id is not in `notified`.
pub open spec fn fires(t: Task, now: u64, notified: Seq<u64>) -> bool {
    &&& t.scheduled_time matches Some(at) && at <= now
    &&& !t.completed
    &&& !notified.contains(t.id)
}

/// The tasks a sweep at `now` notifies about, in list order.
pub open spec fn due_tasks(s: Seq<Task>, now: u64, notified: Seq<u64>) -> Seq<Task>
    decreases s.len(),
{
    if s.len() == 0 {
        Seq::empty()
    } else if fires(s.last(), now, notified) {
        due_tasks(s.drop_last(), now, notified).push(s.last())
    } else {
        due_tasks(s.drop_last(), now, notified)
    }
}

/// The notification effects for a list of due tasks.
pub open spec fn notices(d: Seq<Task>) -> Seq<Effect> {
    d.map_values(|t: Task| Effect::NotifyDue(t))
}

/// The ids of a list of tasks.
pub open spec fn ids_of(d: Seq<Task>) -> Seq<u64> {
    d.map_values(|t: Task| t.id)
}

/// The list with every occurrence of `id` taken out.
pub open spec fn without(s: Seq<u64>, id: u64) -> Seq<u64>
    decreases s.len(),
{
    if s.len() == 0 {
        Seq::empty()
    } else if s.last() == id {
        without(s.drop_last(), id)
    } else {
        without(s.drop_last(), id).push(s.last())
    }
}

pub open spec fn completion_patch() -> TaskPatch {
    TaskPatch { title: None, completed: Some(true), scheduled_time: None }
}

pub open spec fn reopening_patch() -> TaskPatch {
    TaskPatch { title: None, completed: Some(false), scheduled_time: None }
}

/// Why completing `id` fails, if it does.
pub open spec fn complete_error(s: Seq<Task>, id: u64) -> Option<LifecycleError> {
    if task_index(s, id) < 0 {
        Some(LifecycleError::Store(StoreError::NotFound(id)))
    } else if s[task_index(s, id)].completed {
        Some(LifecycleError::AlreadyCompleted(id))
    } else {
        None
    }
}

/// Why reopening `id` fails, if it does.
pub open spec fn reopen_error(s: Seq<Task>, id: u64) -> Option<LifecycleError> {
    if task_index(s, id) < 0 {
        Some(LifecycleError::Store(StoreError::NotFound(id)))
    } else if !s[task_index(s, id)].completed {
        Some(LifecycleError::NotCompleted(id))
    } else {
        None
    }
}

pub open spec fn after_complete(s: Seq<Task>, id: u64, now: u64) -> Seq<Task> {
    s.update(task_index(s, id), patched(s[task_index(s, id)], completion_patch(), now))
}

pub open spec fn after_reopen(s: Seq<Task>, id: u64, now: u64) -> Seq<Task> {
    s.update(task_index(s, id), patched(s[task_index(s, id)], reopening_patch(), now))
}

/// Whether reopening a task at `now` starts a new due instance: its scheduled
/// time is still ahead.
pub open spec fn rearms(t: Task, now: u64) -> bool {
    t.scheduled_time matches Some(at) && at > now
}

/// Every task a sweep notifies about comes from the list and meets `fires`.
pub proof fn lemma_due_tasks(s: Seq<Task>, now: u64, notified: Seq<u64>)
    ensures
        forall|j: int| 0 <= j < due_tasks(s, now, notified).len() ==> fires(#[trigger] due_tasks(s, now, notified)[j], now, notified),
        forall|j: int| 0 <= j < due_tasks(s, now, notified).len() ==> exists|k: int| 0 <= k < s.len() && s[k] == #[trigger] due_tasks(s, now, notified)[j],
    decreases s.len(),
{
    if s.len() > 0 {
        let d = s.drop_last();
        lemma_due_tasks(d, now, notified);
        let dd = due_tasks(d, now, notified);
        let ds = due_tasks(s, now, notified);
        assert forall|j: int| 0 <= j < ds.len() implies exists|k: int| 0 <= k < s.len() && s[k] == #[trigger] ds[j] by {
            if j < dd.len() {
                let k = choose|k: int| 0 <= k < d.len() && d[k] == dd[j];
                assert(s[k] == ds[j]);
            } else {
                assert(s[s.len() - 1] == ds[j]);
            }
        }
    }
}

/// A task without a scheduled time is never notified about by a sweep, whatever
/// the time and whatever was notified before.
pub proof fn lemma_unscheduled_never_due(s: Seq<Task>, now: u64, notified: Seq<u64>, t: Task)
    requires
        t.scheduled_time is None,
    ensures
        !due_tasks(s, now, notified).contains(t),
        !notices(due_tasks(s, now, notified)).contains(Effect::NotifyDue(t)),
{
    lemma_due_tasks(s, now, notified);
    let d = due_tasks(s, now, notified);
    if notices(d).contains(Effect::NotifyDue(t)) {
        let j = choose|j: int| 0 <= j < notices(d).len() && notices(d)[j] == Effect::NotifyDue(t);
        assert(fires(d[j], now, notified));
    }
}

proof fn lemma_sweep_settles(s: Seq<Task>, now: u64, n: Seq<u64>, n2: Seq<u64>)
    requires
        forall|x: u64| n.contains(x) ==> n2.contains(x),
        forall|j: int| 0 <= j < due_tasks(s, now, n).len() ==> n2.contains((#[trigger] due_tasks(s, now, n)[j]).id),
    ensures
        due_tasks(s, now, n2) == Seq::<Task>::empty(),
    decreases s.len(),
{
    if s.len() > 0 {
        let d = s.drop_last();
        let dn = due_tasks(d, now, n);
        let sn = due_tasks(s, now, n);
        assert forall|j: int| 0 <= j < dn.len() implies n2.contains((#[trigger] dn[j]).id) by {
            assert(sn[j] == dn[j]);
        }
        lemma_sweep_settles(d, now, n, n2);
        if fires(s.last(), now, n) {
            assert(sn[sn.len() - 1] == s.last());
        }
    }
}

/// Within one process, a second sweep at the same instant notifies about nothing.
pub proof fn lemma_second_sweep_silent(s: Seq<Task>, now: u64, notified: Seq<u64>)
    ensures
        due_tasks(s, now, notified + ids_of(due_tasks(s, now, notified))) == Seq::<Task>::empty(),
{
    let d = due_tasks(s, now, notified);
    let n2 = notified + ids_of(d);
    assert forall|x: u64| notified.contains(x) implies n2.contains(x) by {
        let k = choose|k: int| 0 <= k < notified.len() && notified[k] == x;
        assert(n2[k] == x);
    }
    assert forall|j: int| 0 <= j < d.len() implies n2.contains((#[trigger] d[j]).id) by {
        assert(n2[notified.len() + j] == d[j].id);
    }
    lemma_sweep_settles(s, now, notified, n2);
}

proof fn lemma_index_after_update(s: Seq<Task>, id: u64, t: Task)
    requires
        tasks_wf(s),
        task_index(s, id) >= 0,
        t.id == id,
    ensures
        task_index(s.update(task_index(s, id), t), id) == task_index(s, id),
{
    let i = task_index(s, id);
    let s2 = s.update(i, t);
    lemma_task_index(s, id);
    lemma_task_index(s2, id);
    let j = task_index(s2, id);
    assert(s2[i] == t);
    if j >= 0 && j != i {
        assert(s2[j] == s[j]);
        if j < i {
            assert(s[j].id != s[i].id);
        } else {
            assert(s[i].id != s[j].id);
        }
    }
}

/// Completing a task and then reopening it leaves it not completed, with the
/// same id, title and scheduled time.
pub proof fn lemma_complete_then_reopen(s: Seq<Task>, id: u64, t1: u64, t2: u64)
    requires
        tasks_wf(s),
        complete_error(s, id) is None,
    ensures
        reopen_error(after_complete(s, id, t1), id) is None,
        task_index(after_reopen(after_complete(s, id, t1), id, t2), id) == task_index(s, id),
        ({
            let before = s[task_index(s, id)];
            let after = after_reopen(after_complete(s, id, t1), id, t2)[task_index(s, id)];
            &&& !after.completed
            &&& after.id == before.id
            &&& after.title == before.title
            &&& after.scheduled_time == before.scheduled_time
        }),
{
    lemma_task_index(s, id);
    let i = task_index(s, id);
    let c = patched(s[i], completion_patch(), t1);
    lemma_index_after_update(s, id, c);
    let s1 = after_complete(s, id, t1);
    assert(tasks_wf(s1)) by {
        assert forall|a: int, b: int| 0 <= a < b < s1.len() implies (#[trigger] s1[a]).id != (#[trigger] s1[b]).id
            && s1[a].created_at <= s1[b].created_at by {
            assert(s1[a].id == s[a].id && s1[a].created_at == s[a].created_at);
            assert(s1[b].id == s[b].id && s1[b].created_at == s[b].created_at);
        }
        assert forall|a: int| 0 <= a < s1.len() implies (#[trigger] s1[a]).wf() by {
            if a != i {
                assert(s1[a] == s[a]);
            }
        }
    }
    let o = patched(s1[i], reopening_patch(), t2);
    lemma_index_after_update(s1, id, o);
}

/// A second completion of the same task is refused as already completed.
pub proof fn lemma_complete_twice_refused(s: Seq<Task>, id: u64, now: u64)
    requires
        tasks_wf(s),
        complete_error(s, id) is None,
    ensures
        complete_error(after_complete(s, id, now), id) == Some(LifecycleError::AlreadyCompleted(id)),
{
    lemma_task_index(s, id);
    lemma_index_after_update(s, id, patched(s[task_index(s, id)], completion_patch(), now));
}

/// Task operations over a store, and the effects they trigger.
pub struct TaskManager {
    store: TaskStore,
    next_id: u64,
    notified: Vec<u64>,
}

impl TaskManager {
    pub closed spec fn tasks(&self) -> Seq<Task> {
        self.store@
    }

    /// The id the next created task gets.
    pub closed spec fn next_id(&self) -> u64 {
        self.next_id
    }

    /// The ids already notified about in this process.
    pub closed spec fn notified(&self) -> Seq<u64> {
        self.notified@
    }

    /// Every id in use or notified about is below the next id to hand out.
    pub closed spec fn wf(&self) -> bool {
        &&& self.store.wf()
        &&& self.next_id >= 1
        &&& self.next_id < u64::MAX ==> {
            &&& forall|k: int| 0 <= k < self.store@.len() ==> (#[trigger] self.store@[k]).id < self.next_id
            &&& forall|k: int| 0 <= k < self.notified@.len() ==> (#[trigger] self.notified@[k]) < self.next_id
        }
    }

    /// The manager's tasks meet the task list's invariant, which the laws above require.
    pub proof fn lemma_tasks_wf(&self)
        requires
            self.wf(),
        ensures
            tasks_wf(self.tasks()),
    {
        self.store.lemma_view_wf();
    }

    /// Takes over an opened store; ids continue after the largest one in it.
    pub fn new(store: TaskStore) -> (r: TaskManager)
        requires
            store.wf(),
        ensures
            r.wf(),
            r.tasks() == store@,
            r.notified() == Seq::<u64>::empty(),
            r.next_id() >= 1,
            forall|k: int| 0 <= k < store@.len() ==> (#[trigger] store@[k]).id < r.next_id() || r.next_id() == u64::MAX,
            r.next_id() == 1 || exists|k: int| 0 <= k < store@.len() && ((#[trigger] store@[k]).id as int + 1 == r.next_id()
                || (r.next_id() == u64::MAX && store@[k].id == u64::MAX)),
    {
        let all = store.list_all();
        let mut next: u64 = 1;
        let mut i: usize = 0;
        while i < all.len()
            invariant
                i <= all.len(),
                all@ == store@,
                next >= 1,
                next < u64::MAX ==> forall|k: int| 0 <= k < i ==> (#[trigger] all@[k]).id < next,
                forall|k: int| 0 <= k < i ==> (#[trigger] all@[k]).id < next || next == u64::MAX,
                next == 1 || exists|k: int| 0 <= k < i && ((#[trigger] all@[k]).id as int + 1 == next
                    || (next == u64::MAX && all@[k].id == u64::MAX)),
            decreases all.len() - i,
        {
            if all[i].id >= next {
                next = if all[i].id == u64::MAX { u64::MAX } else { all[i].id + 1 };
            }
            i = i + 1;
        }
        let r = TaskManager { store, next_id: next, notified: Vec::new() };
        assert(r.notified@ =~= Seq::<u64>::empty());
        r
    }

    pub fn store(&self) -> (r: &TaskStore)
        ensures
            r@ == self.tasks(),
    {
        &self.store
    }

    fn is_notified(&self, id: u64) -> (r: bool)
        ensures
            r == self.notified().contains(id),
    {
        let mut i: usize = 0;
        while i < self.notified.len()
            invariant
                i <= self.notified.len(),
                forall|k: int| 0 <= k < i ==> self.notified@[k] != id,
            decreases self.notified.len() - i,
        {
            if self.notified[i] == id {
                return true;
            }
            i = i + 1;
        }
        false
    }

    /// Forgets that `id` was notified about.
    fn unmark(&mut self, id: u64)
        requires
            old(self).wf(),
        ensures
            final(self).wf(),
            final(self).notified() == without(old(self).notified(), id),
            final(self).store == old(self).store,
            final(self).next_id == old(self).next_id,
            forall|x: u64| final(self).notified().contains(x) ==> old(self).notified().contains(x),
    {
        let mut kept: Vec<u64> = Vec::new();
        let mut i: usize = 0;
        let ghost s = self.notified@;
        while i < self.notified.len()
            invariant
                i <= self.notified.len(),
                s == self.notified@,
                kept@ == without(s.subrange(0, i as int), id),
                forall|x: u64| kept@.contains(x) ==> s.contains(x),
            decreases self.notified.len() - i,
        {
            let x = self.notified[i];
            assert(s.subrange(0, i + 1).drop_last() =~= s.subrange(0, i as int));
            if x != id {
                kept.push(x);
                assert forall|y: u64| kept@.contains(y) implies s.contains(y) by {
                    if y != x {
                        assert(kept@.drop_last().contains(y)) by {
                            let k = choose|k: int| 0 <= k < kept@.len() && kept@[k] == y;
                            assert(kept@.drop_last()[k] == y);
                        }
                    } else {
                        assert(s[i as int] == y);
                    }
                }
            }
            i = i + 1;
        }
        assert(s.subrange(0, s.len() as int) =~= s);
        assert forall|k: int| 0 <= k < kept@.len() && self.next_id < u64::MAX implies (#[trigger] kept@[k]) < self.next_id by {
            assert(kept@.contains(kept@[k]));
            assert(s.contains(kept@[k]));
            let j = choose|j: int| 0 <= j < s.len() && s[j] == kept@[k];
            assert(s[j] < self.next_id);
        }
        self.notified = kept;
    }

    /// Creates a task with the next id; it starts not completed, created and
    /// updated at `now`.
    pub fn create(&mut self, title: String, scheduled_time: Option<u64>, now: u64) -> (r: Result<Task, LifecycleError>)
        requires
            old(self).wf(),
        ensures
            final(self).wf(),
            r is Err <==> old(self).next_id() == u64::MAX,
            r is Err ==> r == Err::<Task, LifecycleError>(LifecycleError::IdsExhausted) && *final(self) == *old(self),
            r is Ok ==> r == Ok::<Task, LifecycleError>(Task {
                id: old(self).next_id(),
                title,
                completed: false,
                scheduled_time,
                created_at: now,
                updated_at: now,
            }),
            r matches Ok(t) ==> final(self).tasks() == old(self).tasks().insert(insert_pos(old(self).tasks(), now), t)
                && final(self).next_id() == old(self).next_id() + 1
                && final(self).notified() == old(self).notified(),
    {
        if self.next_id == u64::MAX {
            return Err(LifecycleError::IdsExhausted);
        }
        let task = Task { id: self.next_id, title, completed: false, scheduled_time, created_at: now, updated_at: now };
        proof {
            lemma_task_index(self.store@, task.id);
            if task_index(self.store@, task.id) >= 0 {
                assert(self.store@[task_index(self.store@, task.id)].id < self.next_id);
            }
        }
        let ghost s0 = self.store@;
        proof {
            self.store.lemma_view_wf();
        }
        match self.store.insert(task) {
            Ok(t) => {
                self.next_id = self.next_id + 1;
                assert forall|k: int| 0 <= k < self.store@.len() implies (#[trigger] self.store@[k]).id < self.next_id by {
                    let p = insert_pos(s0, now);
                    lemma_insert_pos(s0, now);
                    if k < p {
                        assert(self.store@[k] == s0[k]);
                    } else if k > p {
                        assert(self.store@[k] == s0[k - 1]);
                    }
                }
                Ok(t)
            },
            Err(e) => Err(LifecycleError::Store(e)),
        }
    }

    pub fn get(&self, id: u64) -> (r: Result<Task, LifecycleError>)
        ensures
            r is Err <==> task_index(self.tasks(), id) < 0,
            r is Err ==> r == Err::<Task, LifecycleError>(LifecycleError::Store(StoreError::NotFound(id))),
            r matches Ok(t) ==> t == self.tasks()[task_index(self.tasks(), id)],
    {
        match self.store.get(id) {
            Ok(t) => Ok(t),
            Err(e) => Err(LifecycleError::Store(e)),
        }
    }

    /// Every task, ordered by creation time.
    pub fn list(&self) -> (r: Vec<Task>)
        ensures
            r@ == self.tasks(),
    {
        self.store.list_all()
    }

    /// Marks a task completed and asks for haptic feedback. A task that is
    /// already completed is refused and left as it was.
    pub fn complete(&mut self, id: u64, now: u64) -> (r: Result<Effect, LifecycleError>)
        requires
            old(self).wf(),
        ensures
            final(self).wf(),
            complete_error(old(self).tasks(), id) matches Some(e) ==> r == Err::<Effect, LifecycleError>(e)
                && *final(self) == *old(self),
            complete_error(old(self).tasks(), id) is None ==> r == Ok::<Effect, LifecycleError>(Effect::HapticFeedback(HapticKind::Success))
                && final(self).tasks() == after_complete(old(self).tasks(), id, now)
                && final(self).next_id() == old(self).next_id()
                && final(self).notified() == old(self).notified(),
    {
        match self.store.get(id) {
            Err(e) => Err(LifecycleError::Store(e)),
            Ok(t) => {
                if t.completed {
                    return Err(LifecycleError::AlreadyCompleted(id));
                }
                let ghost s0 = self.store@;
                let patch = TaskPatch { title: None, completed: Some(true), scheduled_time: None };
                match self.store.update(id, patch, now) {
                    Ok(_) => {},
                    Err(e) => {
                        return Err(LifecycleError::Store(e));
                    },
                }
                proof {
                    lemma_task_index(s0, id);
                    self.keep_ids_below(s0, task_index(s0, id));
                }
                Ok(Effect::HapticFeedback(HapticKind::Success))
            },
        }
    }

    proof fn keep_ids_below(&self, s0: Seq<Task>, i: int)
        requires
            0 <= i < s0.len(),
            self.store@ == s0.update(i, self.store@[i]),
            self.store@[i].id == s0[i].id,
            self.next_id < u64::MAX ==> forall|k: int| 0 <= k < s0.len() ==> (#[trigger] s0[k]).id < self.next_id,
        ensures
            self.next_id < u64::MAX ==> forall|k: int| 0 <= k < self.store@.len() ==> (#[trigger] self.store@[k]).id < self.next_id,
    {
        assert forall|k: int| 0 <= k < self.store@.len() && self.next_id < u64::MAX implies (#[trigger] self.store@[k]).id < self.next_id by {
            assert(self.store@[k].id == s0[k].id);
        }
    }

    /// Marks a completed task not completed again. If its scheduled time is
    /// still ahead, a new due notification can follow.
    pub fn reopen(&mut self, id: u64, now: u64) -> (r: Result<Task, LifecycleError>)
        requires
            old(self).wf(),
        ensures
            final(self).wf(),
            reopen_error(old(self).tasks(), id) matches Some(e) ==> r == Err::<Task, LifecycleError>(e)
                && *final(self) == *old(self),
            reopen_error(old(self).tasks(), id) is None ==> final(self).tasks() == after_reopen(old(self).tasks(), id, now)
                && r == Ok::<Task, LifecycleError>(after_reopen(old(self).tasks(), id, now)[task_index(old(self).tasks(), id)])
                && final(self).next_id() == old(self).next_id()
                && final(self).notified() == (if rearms(old(self).tasks()[task_index(old(self).tasks(), id)], now) {
                    without(old(self).notified(), id)
                } else {
                    old(self).notified()
                }),
    {
        match self.store.get(id) {
            Err(e) => Err(LifecycleError::Store(e)),
            Ok(t) => {
                if !t.completed {
                    return Err(LifecycleError::NotCompleted(id));
                }
                let ghost s0 = self.store@;
                let patch = TaskPatch { title: None, completed: Some(false), scheduled_time: None };
                let updated = match self.store.update(id, patch, now) {
                    Ok(u) => u,
                    Err(e) => {
                        return Err(LifecycleError::Store(e));
                    },
                };
                proof {
                    lemma_task_index(s0, id);
                    self.keep_ids_below(s0, task_index(s0, id));
                }
                let rearm = match t.scheduled_time {
                    Some(at) => at > now,
                    None => false,
                };
                if rearm {
                    self.unmark(id);
                }
                Ok(updated)
            },
        }
    }

    /// Changes a task's title or scheduled time. A new scheduled time starts a
    /// new due instance.
    pub fn update(&mut self, id: u64, title: Option<String>, scheduled_time: Option<Option<u64>>, now: u64) -> (r: Result<Task, LifecycleError>)
        requires
            old(self).wf(),
        ensures
            final(self).wf(),
            r is Err <==> task_index(old(self).tasks(), id) < 0,
            r is Err ==> r == Err::<Task, LifecycleError>(LifecycleError::Store(StoreError::NotFound(id)))
                && *final(self) == *old(self),
            r matches Ok(t) ==> t == patched(
                old(self).tasks()[task_index(old(self).tasks(), id)],
                TaskPatch { title, completed: None, scheduled_time },
                now,
            ) && final(self).tasks() == old(self).tasks().update(task_index(old(self).tasks(), id), t)
                && final(self).next_id() == old(self).next_id()
                && final(self).notified() == (if scheduled_time is Some {
                    without(old(self).notified(), id)
                } else {
                    old(self).notified()
                }),
    {
        let rearm = scheduled_time.is_some();
        let ghost s0 = self.store@;
        let patch = TaskPatch { title, completed: None, scheduled_time };
        match self.store.update(id, patch, now) {
            Err(e) => Err(LifecycleError::Store(e)),
            Ok(t) => {
                proof {
                    lemma_task_index(s0, id);
                    self.keep_ids_below(s0, task_index(s0, id));
                }
                if rearm {
                    self.unmark(id);
                }
                Ok(t)
            },
        }
    }

    /// Deletes a task; no effect is triggered.
    pub fn delete(&mut self, id: u64) -> (r: Result<(), LifecycleError>)
        requires
            old(self).wf(),
        ensures
            final(self).wf(),
            r is Err <==> task_index(old(self).tasks(), id) < 0,
            r is Err ==> r == Err::<(), LifecycleError>(LifecycleError::Store(StoreError::NotFound(id)))
                && *final(self) == *old(self),
            r is Ok ==> final(self).tasks() == old(self).tasks().remove(task_index(old(self).tasks(), id))
                && final(self).next_id() == old(self).next_id()
                && final(self).notified() == without(old(self).notified(), id),
    {
        let ghost s0 = self.store@;
        match self.store.delete(id) {
            Err(e) => Err(LifecycleError::Store(e)),
            Ok(()) => {
                proof {
                    lemma_task_index(s0, id);
                }
                assert forall|k: int| 0 <= k < self.store@.len() && self.next_id < u64::MAX implies (#[trigger] self.store@[k]).id < self.next_id by {
                    let i = task_index(s0, id);
                    if k < i {
                        assert(self.store@[k] == s0[k]);
                    } else {
                        assert(self.store@[k] == s0[k + 1]);
                    }
                }
                self.unmark(id);
                Ok(())
            },
        }
    }
    /// The due-check sweep: notifies once about every task whose scheduled time
    /// is at or before `now`, that is not completed, and that was not notified
    /// about already in this process; the notified ids are remembered.
    pub fn check_due(&mut self, now: u64) -> (r: Vec<Effect>)
        requires
            old(self).wf(),
        ensures
            final(self).wf(),
            r@ == notices(due_tasks(old(self).tasks(), now, old(self).notified())),
            final(self).tasks() == old(self).tasks(),
            final(self).next_id() == old(self).next_id(),
            final(self).notified() == old(self).notified() + ids_of(due_tasks(old(self).tasks(), now, old(self).notified())),
    {
        let all = self.store.list_all();
        let ghost n0 = self.notified@;
        let ghost s = all@;
        proof {
            self.store.lemma_view_wf();
        }
        let mut out: Vec<Effect> = Vec::new();
        let mut i: usize = 0;
        assert(s.subrange(0, 0) =~= Seq::<Task>::empty());
        assert(n0 + ids_of(Seq::<Task>::empty()) =~= n0);
        assert(notices(Seq::<Task>::empty()) =~= Seq::<Effect>::empty());
        while i < all.len()
            invariant
                i <= all.len(),
                s == all@,
                s == self.store@,
                self.next_id == old(self).next_id,
                tasks_wf(s),
                self.wf(),
                out@ == notices(due_tasks(s.subrange(0, i as int), now, n0)),
                self.notified@ == n0 + ids_of(due_tasks(s.subrange(0, i as int), now, n0)),
            decreases all.len() - i,
        {
            let t = &all[i];
            proof {
                let p = s.subrange(0, i as int);
                lemma_due_tasks(p, now, n0);
                let d = due_tasks(p, now, n0);
                if self.notified@.contains(t.id) && !n0.contains(t.id) {
                    let m = choose|m: int| 0 <= m < self.notified@.len() && self.notified@[m] == t.id;
                    let j = m - n0.len();
                    assert(ids_of(d)[j] == d[j].id);
                    let k = choose|k: int| 0 <= k < p.len() && p[k] == d[j];
                    assert(s[k] == p[k]);
                    assert(s[k].id != s[i as int].id);
                }
                if n0.contains(t.id) {
                    let m = choose|m: int| 0 <= m < n0.len() && n0[m] == t.id;
                    assert(self.notified@[m] == t.id);
                }
            }
            let scheduled_and_open = match t.scheduled_time {
                Some(at) => at <= now && !t.completed,
                None => false,
            };
            let ghost p1 = s.subrange(0, i + 1);
            assert(p1.drop_last() =~= s.subrange(0, i as int));
            assert(p1.last() == s[i as int]);
            if scheduled_and_open && !self.is_notified(t.id) {
                out.push(Effect::NotifyDue(t.duplicate()));
                self.notified.push(t.id);
                proof {
                    let d = due_tasks(s.subrange(0, i as int), now, n0);
                    assert(notices(d.push(s[i as int])) =~= notices(d).push(Effect::NotifyDue(s[i as int])));
                    assert(n0 + ids_of(d.push(s[i as int])) =~= (n0 + ids_of(d)).push(s[i as int].id));
                    assert(s[i as int].id < self.next_id || self.next_id == u64::MAX);
                }
            }
            i = i + 1;
        }
        assert(s.subrange(0, s.len() as int) =~= s);
        out
    }
}

} // verus!
